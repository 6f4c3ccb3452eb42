//! The digest of a file, computed as the file is read.

use sha2::{Digest, Sha256};
use vstd::prelude::*;

verus! {

/// How much of a file is read at a time to compute its digest.
pub const HASHING_CHUNK_SIZE: usize = 2 * 1024 * 1024;

/// The SHA-256 digest of some bytes, as `sha2::Sha256` computes it.
pub uninterp spec fn sha256(bytes: Seq<u8>) -> Seq<u8>;

/// A `sha2::Sha256` on its way through some bytes.
#[verifier::external_body]
pub struct HashState {
    inner: Sha256,
}

/// The bytes that a `sha2::Sha256` was given so far, in order.
pub uninterp spec fn absorbed(state: HashState) -> Seq<u8>;

impl HashState {
    /// `Sha256::new`: nothing was given yet.
    #[verifier::external_body]
    fn new() -> (state: HashState)
        ensures
            absorbed(state) == Seq::<u8>::empty(),
    {
        HashState { inner: Sha256::new() }
    }

    /// `Sha256::update`: takes more bytes, behind those that it was given before.
    #[verifier::external_body]
    fn update(&mut self, bytes: &[u8])
        ensures
            absorbed(*final(self)) == absorbed(*old(self)) + bytes@,
    {
        self.inner.update(bytes)
    }

    /// `Sha256::finalize`: the digest of the bytes that it was given.
    #[verifier::external_body]
    fn finalize(self) -> (digest: [u8; 32])
        ensures
            digest@ == sha256(absorbed(self)),
    {
        self.inner.finalize().into()
    }
}

/// Computes the digest of a file of known size. The file is handed over in parts, from its
/// beginning, until there is enough of it.
pub struct FileHasher {
    state: HashState,
    remaining: u64,
}

/// What a digest was computed of so far, and how much is still to come.
pub struct HasherView {
    pub content: Seq<u8>,
    pub missing: nat,
}

impl HasherView {
    /// Nothing was handed over yet.
    pub open spec fn begin(size: u64) -> HasherView {
        HasherView { content: seq![], missing: size as nat }
    }

    /// A part of the file was handed over.
    pub open spec fn fed(self, part: Seq<u8>) -> HasherView {
        HasherView {
            content: self.content + part,
            missing: if part.len() <= self.missing {
                (self.missing - part.len()) as nat
            } else {
                0
            },
        }
    }

    /// Parts of the file were handed over, one after the other.
    pub open spec fn fed_all(self, parts: Seq<Seq<u8>>) -> HasherView
        decreases parts.len(),
    {
        if parts.len() == 0 {
            self
        } else {
            self.fed_all(parts.drop_last()).fed(parts.last())
        }
    }

    /// Whether more of the file is needed.
    pub open spec fn wants_more(self) -> bool {
        self.missing > 0
    }

    /// The digest of what was handed over.
    pub open spec fn digest(self) -> Seq<u8> {
        sha256(self.content)
    }
}

/// The digest of a file, however it is cut into parts, is the digest of all of its bytes; and more
/// is wanted as long as there are fewer of them than there should be.
pub proof fn parts_make_the_file(size: u64, parts: Seq<Seq<u8>>)
    ensures
        HasherView::begin(size).fed_all(parts).digest() == sha256(parts.flatten()),
        HasherView::begin(size).fed_all(parts).wants_more() <==> parts.flatten().len() < size,
{
    lemma_parts(size, parts);
}

proof fn lemma_parts(size: u64, parts: Seq<Seq<u8>>)
    ensures
        HasherView::begin(size).fed_all(parts).content == parts.flatten(),
        HasherView::begin(size).fed_all(parts).missing == if parts.flatten().len() <= size {
            size - parts.flatten().len()
        } else {
            0
        },
    decreases parts.len(),
{
    if parts.len() == 0 {
        assert(parts.flatten() =~= seq![]);
    } else {
        lemma_parts(size, parts.drop_last());
        assert(parts =~= parts.drop_last().push(parts.last()));
        parts.drop_last().lemma_flatten_push(parts.last());
        assert(parts.flatten() =~= parts.drop_last().flatten() + parts.last());
    }
}

impl View for FileHasher {
    type V = HasherView;

    open spec fn view(&self) -> HasherView {
        HasherView { content: self.content(), missing: self.missing() }
    }
}

impl FileHasher {
    /// What was handed over so far.
    pub closed spec fn content(&self) -> Seq<u8> {
        absorbed(self.state)
    }

    /// How much of the file is still to come.
    pub closed spec fn missing(&self) -> nat {
        self.remaining as nat
    }

    /// A digest of a file of which nothing was handed over yet.
    pub fn new(size: u64) -> (hasher: FileHasher)
        ensures
            hasher@ == HasherView::begin(size),
    {
        FileHasher { state: HashState::new(), remaining: size }
    }

    /// Whether more of the file is needed.
    pub fn wants_more(&self) -> (more: bool)
        ensures
            more == self@.wants_more(),
    {
        self.remaining > 0
    }

    /// Hands over the part of the file behind what was handed over before.
    pub fn update(&mut self, part: &[u8])
        ensures
            final(self)@ == old(self)@.fed(part@),
    {
        self.state.update(part);
        self.remaining = self.remaining.saturating_sub(part.len() as u64);
    }

    /// The digest of what was handed over.
    pub fn finish(self) -> (hash: crate::protocol::Hash<'static>)
        ensures
            hash@ == self@.digest(),
    {
        crate::protocol::Hash::from(self.state.finalize())
    }
}

} // verus!
