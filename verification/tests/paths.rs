use paleta::path::file_name;
use std::path::Path;

#[test]
fn file_name_matches_std_path() {
    let cases = [
        "/home/me/cat.png", "cat.png", "a/b/", "a/b//", "a/.", "a/./", "a/..", "/", "", ".", "./",
        "./x", "/.", "..", "a/b/../c", "x/./y/.", "//double//slash", "sp ace/ñandú.png", "a/.b",
        "a/...", "a/..b", "./.", "/a/./.",
    ];
    for c in cases {
        let expected = Path::new(c).file_name().map(|n| n.to_str().unwrap().to_string());
        assert_eq!(file_name(c), expected, "path {:?}", c);
    }
}
