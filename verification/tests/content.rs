use termsite::content::{File, NameMap, SshContent};

fn sample() -> SshContent {
    let mut content = SshContent::empty();
    content.add_file(0, b"home.txt".to_vec(), File::from_bytes(b"welcome\r\nhome".to_vec()));
    let projects = content.add_child(0, b"projects".to_vec());
    content.add_file(projects, b"alpha.txt".to_vec(), File::from_bytes(b"alpha".to_vec()));
    let deep = content.add_child(projects, b"deep".to_vec());
    content.add_file(deep, b"down.txt".to_vec(), File::from_bytes(b"down".to_vec()));
    let blog = content.add_child(0, b"blog".to_vec());
    content.add_file(blog, b"post.txt".to_vec(), File::from_bytes(b"post".to_vec()));
    content
}

#[test]
fn file_lines_are_split_at_cr_lf() {
    let file = File::new("abc\r\ndefgh".to_string());
    assert_eq!(file.lines, vec![b"abc".to_vec(), b"defgh".to_vec()]);
    assert_eq!(file.raw_contents(), b"abc\r\ndefgh");
}

#[test]
fn empty_file_has_one_empty_line() {
    let file = File::new(String::new());
    assert_eq!(file.lines, vec![Vec::<u8>::new()]);
}

#[test]
fn trailing_cr_lf_gives_an_empty_last_line() {
    let file = File::from_bytes(b"a\r\nb\r\n".to_vec());
    assert_eq!(file.lines, vec![b"a".to_vec(), b"b".to_vec(), Vec::new()]);
}

#[test]
fn lone_cr_and_lone_lf_do_not_split() {
    let file = File::from_bytes(b"a\rb\nc\r\r\nd".to_vec());
    assert_eq!(file.lines, vec![b"a\rb\nc\r".to_vec(), b"d".to_vec()]);
}

#[test]
fn file_new_keeps_the_bytes_of_the_text() {
    let file = File::new("h\u{e9}\r\n\u{4e16}".to_string());
    assert_eq!(file.raw_contents(), "h\u{e9}\r\n\u{4e16}".as_bytes());
    assert_eq!(file.lines.len(), 2);
    assert_eq!(file.lines[0], "h\u{e9}".as_bytes().to_vec());
}

#[test]
fn paths_are_built_from_the_parent() {
    let content = sample();
    assert_eq!(content.get(0).path, b"/".to_vec());
    assert_eq!(content.get(1).path, b"/projects".to_vec());
    assert_eq!(content.get(2).path, b"/projects/deep".to_vec());
    assert_eq!(content.get(3).path, b"/blog".to_vec());
    assert_eq!(content.get(0).parent, None);
    assert_eq!(content.get(2).parent, Some(1));
    assert_eq!(content.get(3).parent, Some(0));
}

#[test]
fn dir_at_walks_from_the_root() {
    let content = sample();
    assert_eq!(content.dir_index_at(b""), Some(0));
    assert_eq!(content.dir_index_at(b"/"), Some(0));
    assert_eq!(content.dir_index_at(b"/projects"), Some(1));
    assert_eq!(content.dir_index_at(b"projects"), Some(1));
    assert_eq!(content.dir_index_at(b"/projects/deep"), Some(2));
    assert_eq!(content.dir_index_at(b"//projects///deep/"), Some(2));
    assert_eq!(content.dir_index_at(b"/./projects/./deep/."), Some(2));
    assert_eq!(content.dir_index_at(b"/projects/deep/.."), Some(1));
    assert_eq!(content.dir_index_at(b"/projects/deep/../../blog"), Some(3));
    assert_eq!(content.dir_at(b"/blog").map(|d| d.path.clone()), Some(b"/blog".to_vec()));
}

#[test]
fn dot_dot_at_the_root_stays() {
    let content = sample();
    assert_eq!(content.dir_index_at(b".."), Some(0));
    assert_eq!(content.dir_index_at(b"/../../projects"), Some(1));
}

#[test]
fn dir_at_unknown_name_is_none() {
    let content = sample();
    assert_eq!(content.dir_index_at(b"/nope"), None);
    assert_eq!(content.dir_index_at(b"/projects/nope/.."), None);
    assert_eq!(content.dir_index_at(b"/home.txt"), None);
    assert!(content.dir_at(b"/Projects").is_none());
}

#[test]
fn get_file_by_absolute_path() {
    let content = sample();
    for cur in 0..4 {
        assert_eq!(content.get_file(cur, b"/home.txt").map(|f| f.raw_contents().to_vec()), Some(b"welcome\r\nhome".to_vec()));
        assert_eq!(content.get_file(cur, b"/projects/deep/down.txt").map(|f| f.raw_contents().to_vec()), Some(b"down".to_vec()));
        assert!(content.get_file(cur, b"/projects/home.txt").is_none());
    }
}

#[test]
fn get_file_by_relative_path() {
    let content = sample();
    assert_eq!(content.get_file(0, b"home.txt").map(|f| f.raw_contents().to_vec()), Some(b"welcome\r\nhome".to_vec()));
    assert_eq!(content.get_file(0, b"projects/alpha.txt").map(|f| f.raw_contents().to_vec()), Some(b"alpha".to_vec()));
    assert_eq!(content.get_file(1, b"alpha.txt").map(|f| f.raw_contents().to_vec()), Some(b"alpha".to_vec()));
    assert_eq!(content.get_file(1, b"deep/down.txt").map(|f| f.raw_contents().to_vec()), Some(b"down".to_vec()));
    assert_eq!(content.get_file(2, b"../alpha.txt").map(|f| f.raw_contents().to_vec()), Some(b"alpha".to_vec()));
    assert_eq!(content.get_file(2, b"../../blog/post.txt").map(|f| f.raw_contents().to_vec()), Some(b"post".to_vec()));
    assert!(content.get_file(1, b"home.txt").is_none());
    assert!(content.get_file(0, b"alpha.txt").is_none());
}

#[test]
fn get_file_wants_a_file_name() {
    let content = sample();
    assert!(content.get_file(0, b"").is_none());
    assert!(content.get_file(0, b"projects").is_none());
    assert!(content.get_file(0, b"projects/").is_none());
}

#[test]
fn locate_file_names_directory_and_position() {
    let content = sample();
    assert_eq!(content.locate_file(0, b"projects/deep/down.txt"), Some((2, 0)));
    assert_eq!(content.locate_file(3, b"nothing.txt"), None);
}

#[test]
fn a_second_file_of_the_same_name_replaces_the_first() {
    let mut content = sample();
    content.add_file(0, b"home.txt".to_vec(), File::from_bytes(b"new".to_vec()));
    assert_eq!(content.get(0).files.len(), 1);
    assert_eq!(content.get_file(0, b"home.txt").map(|f| f.raw_contents().to_vec()), Some(b"new".to_vec()));
}

#[test]
fn a_second_directory_of_the_same_name_takes_the_name() {
    let mut content = sample();
    let again = content.add_child(0, b"blog".to_vec());
    assert_eq!(again, 4);
    assert_eq!(content.dir_index_at(b"/blog"), Some(4));
    assert_eq!(content.get(0).directories.len(), 2);
}

#[test]
fn names_are_kept_in_byte_order() {
    let mut map: NameMap<u32> = NameMap::new();
    for (i, name) in [&b"pear"[..], b"apple", b"Zebra", b"app", b"apple pie", b""].iter().enumerate() {
        map.insert(name.to_vec(), i as u32);
    }
    let names: Vec<Vec<u8>> = (0..map.len()).map(|i| map.name_at(i).clone()).collect();
    assert_eq!(
        names,
        vec![b"".to_vec(), b"Zebra".to_vec(), b"app".to_vec(), b"apple".to_vec(), b"apple pie".to_vec(), b"pear".to_vec()]
    );
    assert_eq!(map.get(b"apple"), Some(&1));
    assert_eq!(map.get(b"appl"), None);
    assert_eq!(map.position(b"pear"), Some(5));
    map.insert(b"apple".to_vec(), 9);
    assert_eq!(map.len(), 6);
    assert_eq!(map.get(b"apple"), Some(&9));
    assert_eq!(*map.value_at(3), 9);
}
