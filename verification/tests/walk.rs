use ffs::file_generator::{FileGenerator, WalkStep};

fn entries(dir: &str) -> Vec<(&'static str, bool)> {
    match dir {
        "root" => vec![("root/a", false), ("root/d", true), ("root/e", true), ("root/b", false)],
        "root/d" => vec![("root/d/x", false)],
        "root/e" => vec![],
        _ => panic!("{} is no directory", dir),
    }
}

fn walk(start: &'static str) -> Vec<&'static str> {
    let mut generator = FileGenerator::new(start);
    let mut dir = Vec::new();
    let mut found = Vec::new();
    loop {
        let file = match generator.next_step() {
            WalkStep::ReadEntry => {
                let entry = if dir.is_empty() { None } else { Some(dir.remove(0)) };
                generator.entry_read(entry)
            }
            WalkStep::Inspect(path) => {
                let is_dir = matches!(path, "root" | "root/d" | "root/e");
                if is_dir {
                    dir = entries(path);
                }
                generator.inspected(path, is_dir)
            }
            WalkStep::Finished => return found,
        };
        if let Some(file) = file {
            found.push(file);
        }
    }
}

#[test]
fn every_file_is_found_once() {
    assert_eq!(walk("root"), vec!["root/a", "root/b", "root/d/x"]);
}

#[test]
fn file_is_found_by_itself() {
    assert_eq!(walk("root/a"), vec!["root/a"]);
}

#[test]
fn empty_directory_has_no_files() {
    assert!(walk("root/e").is_empty());
}
