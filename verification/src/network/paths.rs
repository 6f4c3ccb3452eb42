//! The paths under which files are sent.

use vstd::prelude::*;

verus! {

broadcast use vstd::string::group_string_axioms;

/// The components of a path: what stands between its slashes.
pub open spec fn components(path: Seq<char>) -> Seq<Seq<char>>
    decreases path.len(),
{
    if path.len() == 0 {
        seq![seq![]]
    } else {
        let front = components(path.drop_last());
        if path.last() == '/' {
            front.push(seq![])
        } else {
            front.drop_last().push(front.last().push(path.last()))
        }
    }
}

/// How far below a folder one is, coming from `level` levels below it, after a component of a path:
/// `..` goes up, unless that leads out of the folder, nothing and `.` stay, and a name goes down.
pub open spec fn level_after(level: nat, component: Seq<char>) -> Option<nat> {
    if component == seq!['.', '.'] {
        if level > 0 {
            Some((level - 1) as nat)
        } else {
            None
        }
    } else if component.len() == 0 || component == seq!['.'] {
        Some(level)
    } else {
        Some(level + 1)
    }
}

/// How far below a folder a path leads, unless it leads out of the folder on its way.
pub open spec fn level_of(components: Seq<Seq<char>>) -> Option<nat>
    decreases components.len(),
{
    if components.len() == 0 {
        Some(0)
    } else {
        match level_of(components.drop_last()) {
            Some(level) => level_after(level, components.last()),
            None => None,
        }
    }
}

/// Whether a path, taken from a root folder, stays inside of that folder: there is one, it does
/// not begin with a slash, and it nowhere goes up further than it went down before.
pub open spec fn inside_root(path: Seq<char>) -> bool {
    &&& path.len() > 0
    &&& path[0] != '/'
    &&& level_of(components(path)) is Some
}

fn chars_of(text: &str) -> (chars: Vec<char>)
    ensures
        chars@ == text@,
{
    let mut chars: Vec<char> = Vec::new();
    for c in all: text.chars()
        invariant
            all.seq() == text@,
            chars@ == all.seq().take(all.index() as int),
    {
        chars.push(c);
        assert(chars@ =~= all.seq().take(all.index() + 1));
    }
    assert(chars@ =~= text@);
    chars
}

/// The level after a component of a path.
fn next_level(level: u128, component: &Vec<char>) -> (next: Option<u128>)
    requires
        level < u128::MAX,
    ensures
        match next {
            Some(n) => level_after(level as nat, component@) == Some(n as nat) && n <= level + 1,
            None => level_after(level as nat, component@) is None,
        },
{
    if component.len() == 2 && component[0] == '.' && component[1] == '.' {
        assert(component@ =~= seq!['.', '.']);
        if level > 0 {
            Some(level - 1)
        } else {
            None
        }
    } else if component.len() == 0 {
        Some(level)
    } else if component.len() == 1 && component[0] == '.' {
        assert(component@ =~= seq!['.']);
        Some(level)
    } else {
        Some(level + 1)
    }
}

/// Whether a path stays inside of the root folder that it is taken from.
pub fn is_inside_root(path: &str) -> (inside: bool)
    ensures
        inside == inside_root(path@),
{
    let chars = chars_of(path);
    if chars.len() == 0 || chars[0] == '/' {
        return false;
    }
    let mut level: u128 = 0;
    let mut component: Vec<char> = Vec::new();
    let mut i: usize = 0;
    proof {
        lemma_components_len(chars@.take(0));
        assert(components(chars@.take(0)).drop_last() =~= seq![]);
        assert(component@ =~= components(chars@.take(0)).last());
    }
    while i < chars.len()
        invariant
            chars@ == path@,
            path@.len() > 0,
            path@[0] != '/',
            i <= chars@.len(),
            level <= i,
            component@ == components(chars@.take(i as int)).last(),
            level_of(components(chars@.take(i as int)).drop_last()) == Some(level as nat),
        decreases chars.len() - i,
    {
        let c = chars[i];
        let ghost before = chars@.take(i as int);
        let ghost after = chars@.take(i + 1);
        proof {
            lemma_components_len(before);
            assert(after.drop_last() =~= before);
            assert(after.last() == c);
        }
        if c == '/' {
            let next = next_level(level, &component);
            assert(components(after).drop_last() =~= components(before));
            match next {
                Some(n) => {
                    level = n;
                },
                None => {
                    proof {
                        lemma_no_way_back(chars@, i + 1);
                    }
                    return false;
                },
            }
            component = Vec::new();
        } else {
            component.push(c);
            assert(components(after).drop_last() =~= components(before).drop_last());
        }
        i += 1;
    }
    assert(chars@.take(i as int) =~= path@);
    proof {
        lemma_components_len(path@);
    }
    next_level(level, &component).is_some()
}

proof fn lemma_components_len(path: Seq<char>)
    ensures
        components(path).len() > 0,
    decreases path.len(),
{
    if path.len() > 0 {
        lemma_components_len(path.drop_last());
    }
}

/// A path that led out of the folder, by whole components, does not lead back.
proof fn lemma_no_way_back(path: Seq<char>, n: int)
    requires
        0 <= n <= path.len(),
        level_of(components(path.take(n)).drop_last()) is None,
    ensures
        level_of(components(path).drop_last()) is None,
        level_of(components(path)) is None,
    decreases path.len(),
{
    lemma_components_len(path);
    if n == path.len() {
        assert(path.take(n) =~= path);
    } else {
        let init = path.drop_last();
        assert(init.take(n) =~= path.take(n));
        lemma_no_way_back(init, n);
        lemma_components_len(init);
        if path.last() == '/' {
            assert(components(path).drop_last() =~= components(init));
        } else {
            assert(components(path).drop_last() =~= components(init).drop_last());
        }
    }
}

/// A component of a path in a file system.
#[derive(Debug)]
pub enum PathPart {
    /// Where absolute paths begin.
    Root,
    /// `.`
    Current,
    /// `..`
    Parent,
    /// A name.
    Name(String),
}

/// What a component of a path says.
pub enum PathPartView {
    Root,
    Current,
    Parent,
    Name(Seq<char>),
}

impl View for PathPart {
    type V = PathPartView;

    open spec fn view(&self) -> PathPartView {
        match self {
            PathPart::Root => PathPartView::Root,
            PathPart::Current => PathPartView::Current,
            PathPart::Parent => PathPartView::Parent,
            PathPart::Name(name) => PathPartView::Name(name@),
        }
    }
}

/// The components of a path as they are written, in order, without those that say `.`.
pub open spec fn written(parts: Seq<PathPart>) -> Seq<Seq<char>>
    decreases parts.len(),
{
    if parts.len() == 0 {
        seq![]
    } else {
        let front = written(parts.drop_last());
        match parts.last()@ {
            PathPartView::Name(name) => front.push(name),
            PathPartView::Parent => front.push(seq!['.', '.']),
            PathPartView::Root | PathPartView::Current => front,
        }
    }
}

/// Components of a path with slashes in between.
pub open spec fn joined(names: Seq<Seq<char>>) -> Seq<char>
    decreases names.len(),
{
    if names.len() == 0 {
        seq![]
    } else if names.len() == 1 {
        names[0]
    } else {
        joined(names.drop_last()) + seq!['/'] + names.last()
    }
}

/// Whether a path begins at the root of the file system.
pub open spec fn is_absolute(parts: Seq<PathPart>) -> bool {
    exists|i: int| 0 <= i < parts.len() && (#[trigger] parts[i])@ is Root
}

/// The path by which a server is to know a file: the file's own path, where that is a relative one
/// that stays inside of the folder that it is taken from, else its last name. A path without a
/// last name goes by none.
pub open spec fn remote_name(parts: Seq<PathPart>) -> Option<Seq<char>> {
    if parts.len() == 0 {
        None
    } else {
        match parts.last()@ {
            PathPartView::Name(name) => if !is_absolute(parts) && inside_root(
                joined(written(parts)),
            ) {
                Some(joined(written(parts)))
            } else {
                Some(name)
            },
            _ => None,
        }
    }
}

/// The path by which a server is to know a file, given the components of the file's own path.
pub fn remote_path(parts: &Vec<PathPart>) -> (path: Option<String>)
    ensures
        match path {
            Some(text) => remote_name(parts@) == Some(text@),
            None => remote_name(parts@) is None,
        },
{
    let mut text = String::new();
    let mut first: bool = true;
    let mut absolute: bool = false;
    let mut i: usize = 0;
    while i < parts.len()
        invariant
            i <= parts@.len(),
            text@ == joined(written(parts@.take(i as int))),
            first == (written(parts@.take(i as int)).len() == 0),
            absolute == is_absolute(parts@.take(i as int)),
        decreases parts.len() - i,
    {
        let ghost before = parts@.take(i as int);
        let ghost after = parts@.take(i + 1);
        let ghost part = parts@[i as int]@;
        assert(after.drop_last() =~= before);
        assert(after.last() == parts@[i as int]);
        let component: Option<&str> = match &parts[i] {
            PathPart::Name(name) => Some(name.as_str()),
            PathPart::Parent => {
                proof {
                    reveal_strlit("..");
                    assert(".."@ =~= seq!['.', '.']);
                }
                Some("..")
            },
            PathPart::Current => None,
            PathPart::Root => {
                absolute = true;
                None
            },
        };
        if let Some(component) = component {
            if !first {
                text.append("/");
            }
            text.append(component);
            proof {
                reveal_strlit("/");
                let list = written(after);
                assert(list.drop_last() =~= written(before));
                assert(list.last() == component@);
                assert("/"@ =~= seq!['/']);
                assert(text@ =~= joined(list));
            }
            first = false;
        }
        proof {
            if is_absolute(before) {
                let k = choose|k: int| 0 <= k < before.len() && (#[trigger] before[k])@ is Root;
                assert(after[k] == before[k]);
            }
            if part is Root {
                assert(after[i as int]@ == part);
            }
            if is_absolute(after) && !(part is Root) {
                let k = choose|k: int| 0 <= k < after.len() && (#[trigger] after[k])@ is Root;
                assert(before[k] == after[k]);
            }
        }
        i += 1;
    }
    assert(parts@.take(i as int) =~= parts@);
    if parts.len() == 0 {
        return None;
    }
    match &parts[parts.len() - 1] {
        PathPart::Name(name) => if !absolute && is_inside_root(text.as_str()) {
            Some(text)
        } else {
            Some(name.as_str().to_owned())
        },
        _ => None,
    }
}

/// Whether a name is one that a file system gives: not empty, without a slash, and not `..`.
pub open spec fn is_name(name: Seq<char>) -> bool {
    &&& name.len() > 0
    &&& !name.contains('/')
    &&& name != seq!['.', '.']
}

proof fn lemma_one_component(name: Seq<char>)
    requires
        !name.contains('/'),
    ensures
        components(name) == seq![name],
    decreases name.len(),
{
    if name.len() > 0 {
        let init = name.drop_last();
        assert forall|i: int| 0 <= i < init.len() implies init[i] != '/' by {
            assert(name.contains(name[i]));
        }
        lemma_one_component(init);
        assert(name.contains(name[name.len() - 1]));
        assert(init.push(name.last()) =~= name);
    } else {
        assert(name =~= seq![]);
    }
    assert(components(name) =~= seq![name]);
}

proof fn lemma_name(name: Seq<char>)
    requires
        is_name(name),
    ensures
        inside_root(name),
{
    assert(name.contains(name[0]));
    lemma_one_component(name);
    let one = seq![name];
    assert(one.drop_last() =~= seq![]);
    assert(level_of(one.drop_last()) == Some(0nat));
    assert(one.last() == name);
    assert(level_of(one) is Some);
}

/// Wherever a file is, the path by which a server is to know it stays inside of the server's root
/// folder.
pub proof fn remote_names_stay_inside(parts: Seq<PathPart>)
    requires
        forall|i: int|
            0 <= i < parts.len() ==> ((#[trigger] parts[i])@ matches PathPartView::Name(name)
                ==> is_name(name)),
    ensures
        remote_name(parts) matches Some(path) ==> inside_root(path),
{
    if remote_name(parts) is Some {
        let last = parts[parts.len() - 1];
        lemma_name(last@->Name_0);
    }
}

proof fn lemma_append(front: Seq<char>, name: Seq<char>)
    requires
        !name.contains('/'),
    ensures
        components(front + seq!['/'] + name) == components(front).push(name),
    decreases name.len(),
{
    let path = front + seq!['/'] + name;
    lemma_components_len(front);
    if name.len() == 0 {
        assert(path.drop_last() =~= front);
        assert(name =~= seq![]);
    } else {
        let init = name.drop_last();
        assert forall|i: int| 0 <= i < init.len() implies init[i] != '/' by {
            assert(name.contains(name[i]));
        }
        lemma_append(front, init);
        assert(name.contains(name[name.len() - 1]));
        assert(path.drop_last() =~= front + seq!['/'] + init);
        assert(path.last() == name.last());
        let before = components(front).push(init);
        assert(before.drop_last() =~= components(front));
        assert(init.push(name.last()) =~= name);
        assert(components(path) =~= components(front).push(name));
    }
}

proof fn lemma_append_path(front: Seq<char>, rest: Seq<char>)
    ensures
        components(front + seq!['/'] + rest) == components(front) + components(rest),
    decreases rest.len(),
{
    let path = front + seq!['/'] + rest;
    lemma_components_len(front);
    lemma_components_len(rest);
    if rest.len() == 0 {
        assert(path.drop_last() =~= front);
        assert(components(path) =~= components(front) + components(rest));
    } else {
        let init = rest.drop_last();
        lemma_components_len(init);
        lemma_append_path(front, init);
        assert(path.drop_last() =~= front + seq!['/'] + init);
        assert(path.last() == rest.last());
        assert(components(path) =~= components(front) + components(rest));
    }
}

proof fn lemma_same_level(a: Seq<Seq<char>>, b: Seq<Seq<char>>, rest: Seq<Seq<char>>)
    requires
        level_of(a) == level_of(b),
    ensures
        level_of(a + rest) == level_of(b + rest),
    decreases rest.len(),
{
    if rest.len() == 0 {
        assert(a + rest =~= a);
        assert(b + rest =~= b);
    } else {
        lemma_same_level(a, b, rest.drop_last());
        assert((a + rest).drop_last() =~= a + rest.drop_last());
        assert((b + rest).drop_last() =~= b + rest.drop_last());
    }
}

/// A path that is not there, that begins with a slash, or that begins by going up, leads out of the
/// folder that it is taken from, whatever follows.
pub proof fn paths_lead_out(rest: Seq<char>)
    ensures
        !inside_root(seq![]),
        !inside_root(seq!['/'] + rest),
        !inside_root(seq!['.', '.']),
        !inside_root(seq!['.', '.', '/'] + rest),
{
    let up = seq!['.', '.'];
    assert(!up.contains('/'));
    lemma_one_component(up);
    let one = seq![up];
    assert(one.drop_last() =~= seq![]);
    assert(level_of(one.drop_last()) == Some(0nat));
    assert(level_of(one) is None);
    let path = up + seq!['/'] + rest;
    assert(seq!['.', '.', '/'] + rest =~= path);
    lemma_append_path(up, rest);
    lemma_out_stays_out(one, components(rest));
}

proof fn lemma_out_stays_out(a: Seq<Seq<char>>, rest: Seq<Seq<char>>)
    requires
        level_of(a) is None,
    ensures
        level_of(a + rest) is None,
    decreases rest.len(),
{
    if rest.len() == 0 {
        assert(a + rest =~= a);
    } else {
        lemma_out_stays_out(a, rest.drop_last());
        assert((a + rest).drop_last() =~= a + rest.drop_last());
    }
}

/// A name leads inside of a folder, and whatever is appended to a path, but for `..`, leads on from
/// where the path leads: inside of the folder if and only if the path does.
pub proof fn names_lead_inside(front: Seq<char>, name: Seq<char>)
    requires
        !name.contains('/'),
        name != seq!['.', '.'],
    ensures
        name.len() > 0 ==> inside_root(name),
        inside_root(front + seq!['/'] + name) <==> inside_root(front),
{
    if name.len() > 0 {
        lemma_name(name);
    }
    let path = front + seq!['/'] + name;
    lemma_append(front, name);
    assert(components(path).drop_last() =~= components(front));
    assert(components(path).last() == name);
    if front.len() > 0 {
        assert(path[0] == front[0]);
    } else {
        assert(path[0] == '/');
    }
}

/// Going down into a folder and up again leads back: a path with both in it leads inside if and
/// only if it does without.
pub proof fn down_and_up_leads_back(front: Seq<char>, name: Seq<char>, rest: Seq<char>)
    requires
        name.len() > 0,
        !name.contains('/'),
        name != seq!['.'],
        name != seq!['.', '.'],
    ensures
        front.len() > 0 ==> (inside_root(
            front + seq!['/'] + name + seq!['/', '.', '.', '/'] + rest,
        ) <==> inside_root(front + seq!['/'] + rest)),
        rest.len() > 0 && rest[0] != '/' ==> (inside_root(
            name + seq!['/', '.', '.', '/'] + rest,
        ) <==> inside_root(rest)),
{
    let up = seq!['.', '.'];
    assert(!up.contains('/'));
    // from a path on
    let down = front + seq!['/'] + name;
    let back = down + seq!['/'] + up;
    lemma_append(front, name);
    lemma_append(down, up);
    let whole = front + seq!['/'] + name + seq!['/', '.', '.', '/'] + rest;
    assert(whole =~= back + seq!['/'] + rest);
    lemma_append_path(back, rest);
    lemma_append_path(front, rest);
    let c = components(front);
    assert(c.push(name).push(up).drop_last() =~= c.push(name));
    assert(c.push(name).drop_last() =~= c);
    assert(c.push(name).last() == name);
    assert(c.push(name).push(up).last() == up);
    if let Some(level) = level_of(c) {
        assert(level_of(c.push(name)) == Some(level + 1));
    } else {
        assert(level_of(c.push(name)) is None);
    }
    assert(level_of(c.push(name).push(up)) == level_of(c));
    lemma_same_level(c.push(name).push(up), c, components(rest));
    if front.len() > 0 {
        assert(whole[0] == front[0]);
        assert((front + seq!['/'] + rest)[0] == front[0]);
    }
    // from the folder on
    let there = name + seq!['/'] + up;
    let path = name + seq!['/', '.', '.', '/'] + rest;
    assert(path =~= there + seq!['/'] + rest);
    lemma_one_component(name);
    lemma_append(name, up);
    lemma_append_path(there, rest);
    let two = seq![name].push(up);
    assert(two.drop_last() =~= seq![name]);
    assert(seq![name].drop_last() =~= seq![]);
    assert(level_of(Seq::<Seq<char>>::empty()) == Some(0nat));
    assert(level_of(seq![name]) == Some(1nat));
    assert(level_of(two) == Some(0nat));
    lemma_same_level(two, Seq::<Seq<char>>::empty(), components(rest));
    assert(Seq::<Seq<char>>::empty() + components(rest) =~= components(rest));
    assert(path[0] == name[0]);
    assert(name.contains(name[0]));
}

proof fn lemma_joined(list: Seq<Seq<char>>)
    requires
        list.len() > 0,
        forall|i: int| 0 <= i < list.len() ==> is_name(#[trigger] list[i]),
    ensures
        components(joined(list)) == list,
        inside_root(joined(list)),
    decreases list.len(),
{
    let last = list.last();
    assert(is_name(list[list.len() - 1]));
    if list.len() == 1 {
        lemma_one_component(last);
        lemma_name(last);
        assert(list =~= seq![last]);
    } else {
        let init = list.drop_last();
        assert forall|i: int| 0 <= i < init.len() implies is_name(#[trigger] init[i]) by {
            assert(init[i] == list[i]);
        }
        lemma_joined(init);
        lemma_append(joined(init), last);
        names_lead_inside(joined(init), last);
        assert(init.push(last) =~= list);
    }
}

proof fn lemma_written(parts: Seq<PathPart>)
    requires
        forall|i: int| 0 <= i < parts.len() ==> (#[trigger] parts[i])@ is Name,
    ensures
        written(parts) == Seq::new(parts.len(), |i: int| parts[i]@->Name_0),
    decreases parts.len(),
{
    let list = Seq::new(parts.len(), |i: int| parts[i]@->Name_0);
    if parts.len() > 0 {
        let init = parts.drop_last();
        assert forall|i: int| 0 <= i < init.len() implies (#[trigger] init[i])@ is Name by {
            assert(init[i] == parts[i]);
        }
        lemma_written(init);
        assert(parts[parts.len() - 1] == parts.last());
        assert(written(parts) =~= list);
    } else {
        assert(written(parts) =~= list);
    }
}

/// A server is to know a file by the very names that lead to it, one below the other, if nothing
/// but names leads to it, and by its last name alone if its path begins at the root of the file
/// system. A path without a last name is no file's.
pub proof fn files_go_by_their_names(parts: Seq<PathPart>)
    requires
        parts.len() > 0,
        forall|i: int|
            0 <= i < parts.len() ==> ((#[trigger] parts[i])@ matches PathPartView::Name(name)
                ==> is_name(name)),
    ensures
        (forall|i: int| 0 <= i < parts.len() ==> (#[trigger] parts[i])@ is Name) ==> (remote_name(
            parts,
        ) matches Some(path) && components(path) == Seq::new(
            parts.len(),
            |i: int| parts[i]@->Name_0,
        )),
        parts[0]@ is Root && parts.last()@ is Name ==> remote_name(parts) == Some(
            parts.last()@->Name_0,
        ),
        remote_name(parts) is Some <==> parts.last()@ is Name,
{
    assert(parts[parts.len() - 1] == parts.last());
    if forall|i: int| 0 <= i < parts.len() ==> (#[trigger] parts[i])@ is Name {
        lemma_written(parts);
        let list = written(parts);
        assert forall|i: int| 0 <= i < list.len() implies is_name(#[trigger] list[i]) by {
            assert(parts[i]@ is Name);
        }
        lemma_joined(list);
        assert(!is_absolute(parts));
    }
}

} // verus!
