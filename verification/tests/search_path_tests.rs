use toolchain_image::search_path::{join_entries, purge_entries, split_entries};

fn bytes(s: &str) -> Vec<u8> {
    s.as_bytes().to_vec()
}

fn entries(parts: &[&str]) -> Vec<Vec<u8>> {
    parts.iter().map(|p| bytes(p)).collect()
}

#[test]
fn split_ordinary_value() {
    let r = split_entries(&bytes("/bin:/usr/bin:/usr/local/bin"));
    assert_eq!(r, entries(&["/bin", "/usr/bin", "/usr/local/bin"]));
}

#[test]
fn split_empty_value_gives_one_empty_entry() {
    let r = split_entries(&bytes(""));
    assert_eq!(r, entries(&[""]));
}

#[test]
fn split_preserves_duplicates_and_empty_entries() {
    let r = split_entries(&bytes("/a::/a:"));
    assert_eq!(r, entries(&["/a", "", "/a", ""]));
}

#[test]
fn join_ordinary_entries() {
    let r = join_entries(&entries(&["/bin", "/usr/bin"])).unwrap();
    assert_eq!(r, bytes("/bin:/usr/bin"));
}

#[test]
fn join_rejects_entry_holding_separator() {
    let r = join_entries(&entries(&["/bin", "/bad:dir"]));
    assert_eq!(r, Err(bytes("/bad:dir")));
}

#[test]
fn split_then_join_round_trips() {
    let v = bytes("/bin:/usr/bin:/usr/local/bin");
    assert_eq!(join_entries(&split_entries(&v)).unwrap(), v);
}

#[test]
fn purge_removes_every_occurrence() {
    let r = purge_entries(
        entries(&["/a", "/shim", "/b", "/shim"]),
        &entries(&["/shim"]),
    );
    assert_eq!(r, entries(&["/a", "/b"]));
}

#[test]
fn purge_keeps_order_of_the_rest() {
    let r = purge_entries(
        entries(&["/c", "/x", "/a", "/y", "/b"]),
        &entries(&["/x", "/y"]),
    );
    assert_eq!(r, entries(&["/c", "/a", "/b"]));
}

#[test]
fn purge_of_absent_directories_changes_nothing() {
    let r = purge_entries(entries(&["/a", "/b"]), &entries(&["/nowhere"]));
    assert_eq!(r, entries(&["/a", "/b"]));
}
