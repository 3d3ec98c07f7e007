use std::path::Path;
use veltro::path::{extension_exec, file_name_exec, with_extension_exec};

const PATHS: &[&str] = &[
    "lib/a.dart",
    "lib/a.dart/",
    "lib/a.dart//",
    "lib/a.dart/.",
    "lib/./a.dart",
    "a.b.c",
    ".hidden",
    "lib/.hidden",
    "a.",
    "lib/",
    "/",
    "",
    ".",
    "..",
    "lib/..",
    "lib/sub/d.g.dart",
    "noext",
    "/abs/x.txt",
];

fn chars(s: &str) -> Vec<char> {
    s.chars().collect()
}

#[test]
fn with_extension_agrees_with_std() {
    for p in PATHS {
        let ours = with_extension_exec(p, "g.dart");
        let std = Path::new(p).with_extension("g.dart");
        assert_eq!(ours, std.to_str().unwrap(), "path {:?}", p);
        let removed = with_extension_exec(p, "");
        assert_eq!(removed, Path::new(p).with_extension("").to_str().unwrap(), "path {:?}", p);
    }
}

#[test]
fn file_name_and_extension_agree_with_std() {
    for p in PATHS {
        let name: Option<String> = file_name_exec(&chars(p)).map(|v| v.into_iter().collect());
        assert_eq!(name.as_deref(), Path::new(p).file_name().and_then(|s| s.to_str()), "path {:?}", p);
        let ext: Option<String> = extension_exec(&chars(p)).map(|v| v.into_iter().collect());
        assert_eq!(ext.as_deref(), Path::new(p).extension().and_then(|s| s.to_str()), "path {:?}", p);
    }
}
