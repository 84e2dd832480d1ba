use lala::source::check_extension;
use lala::source::get_extension;
use lala::source::SourceError;

#[test]
fn a_lala_file_is_accepted() {
    assert_eq!(get_extension("program.lala"), Ok("lala"));
    assert_eq!(get_extension("dir/sub.dir/program.lala"), Ok("lala"));
    assert_eq!(get_extension("archive.tar.lala"), Ok("lala"));
}

#[test]
fn any_other_file_is_refused() {
    assert_eq!(get_extension("program.txt"), Err(SourceError::NotLalaFile));
    assert_eq!(get_extension("program.LALA"), Err(SourceError::NotLalaFile));
    assert_eq!(get_extension("program.lala.bak"), Err(SourceError::NotLalaFile));
    assert_eq!(get_extension("program"), Err(SourceError::NotLalaFile));
    assert_eq!(get_extension(".lala"), Err(SourceError::NotLalaFile));
    assert_eq!(get_extension(""), Err(SourceError::NotLalaFile));
    assert_eq!(get_extension("lala"), Err(SourceError::NotLalaFile));
}

#[test]
fn only_the_extension_lala_passes() {
    assert_eq!(check_extension(Some("lala")), Ok("lala"));
    assert_eq!(check_extension(Some("lal")), Err(SourceError::NotLalaFile));
    assert_eq!(check_extension(Some("lalaa")), Err(SourceError::NotLalaFile));
    assert_eq!(check_extension(Some("")), Err(SourceError::NotLalaFile));
    assert_eq!(check_extension(None), Err(SourceError::NotLalaFile));
}

#[test]
fn an_accepted_extension_stands_behind_a_dot_in_the_path() {
    let paths = [
        "program.lala",
        "dir/program.lala",
        "dir.d/program.lala/",
        "a.b.lala",
        "program.txt",
        "program",
        "lala",
        "dir.lala/program",
        ".lala",
        "..",
        "",
    ];
    for path in paths.iter() {
        match get_extension(path) {
            Ok(ext) => {
                assert_eq!(ext, "lala");
                assert!(path.contains(".lala"));
            }
            Err(e) => assert_eq!(e, SourceError::NotLalaFile),
        }
    }
    assert_eq!(get_extension("dir.d/program.lala/"), Ok("lala"));
    assert_eq!(get_extension("dir.lala/program"), Err(SourceError::NotLalaFile));
}
