use router_core::path::{read_pattern, read_segment, split_path, Segment, SegmentType};

fn names(path: &str) -> Vec<String> {
    split_path(path)
}

#[test]
fn split_path_cuts_at_every_slash() {
    assert_eq!(names("/api/submit"), vec!["api".to_string(), "submit".to_string()]);
    assert_eq!(names("/users/42/extra"), vec!["users", "42", "extra"]);
}

#[test]
fn split_path_of_root_is_empty() {
    assert_eq!(names("/"), Vec::<String>::new());
    assert_eq!(names(""), Vec::<String>::new());
}

#[test]
fn split_path_drops_one_leading_slash_only() {
    assert_eq!(names("api/submit"), vec!["api", "submit"]);
    assert_eq!(names("//"), vec!["", ""]);
    assert_eq!(names("//a"), vec!["", "a"]);
}

#[test]
fn split_path_keeps_empty_segments() {
    assert_eq!(names("/a//b"), vec!["a", "", "b"]);
    assert_eq!(names("/a/"), vec!["a", ""]);
}

#[test]
fn split_path_takes_characters_beyond_ascii() {
    assert_eq!(names("/caf\u{e9}/\u{4e2d}\u{6587}/x"), vec!["caf\u{e9}", "\u{4e2d}\u{6587}", "x"]);
}

#[test]
fn read_segment_tells_static_from_dynamic() {
    assert_eq!(
        read_segment("users"),
        Segment { name: "users".to_string(), segment_type: SegmentType::Static }
    );
    assert_eq!(
        read_segment(":id"),
        Segment { name: "id".to_string(), segment_type: SegmentType::Dynamic }
    );
    assert_eq!(
        read_segment(":"),
        Segment { name: String::new(), segment_type: SegmentType::Dynamic }
    );
    assert_eq!(
        read_segment(""),
        Segment { name: String::new(), segment_type: SegmentType::Static }
    );
    assert_eq!(
        read_segment("a:b"),
        Segment { name: "a:b".to_string(), segment_type: SegmentType::Static }
    );
}

#[test]
fn read_pattern_reads_each_segment() {
    assert_eq!(
        read_pattern("/users/:id/posts"),
        vec![
            Segment { name: "users".to_string(), segment_type: SegmentType::Static },
            Segment { name: "id".to_string(), segment_type: SegmentType::Dynamic },
            Segment { name: "posts".to_string(), segment_type: SegmentType::Static },
        ]
    );
    assert_eq!(read_pattern("/"), Vec::<Segment>::new());
}
