use scene_engine::player::PlayerData;
use scene_engine::script::{Script, ScriptReader, split_next_segment};

fn player() -> PlayerData {
    PlayerData::new(1, 1, 1)
}

#[test]
fn plain_text_is_one_segment() {
    let s = Script::from_str("Hello ").unwrap();
    assert_eq!(s.segments.len(), 1);
    assert_eq!(s.segments[0].text, "Hello");
}

#[test]
fn segments_cut_after_control_blocks() {
    let s = Script::from_str("A $add[x] B").unwrap();
    assert_eq!(s.segments.len(), 2);
    assert_eq!(s.segments[0].text, "A");
    assert_eq!(s.segments[0].add_tags, vec!["x"]);
    assert_eq!(s.segments[1].text, "");
    assert!(s.segments[1].add_tags.is_empty());
}

#[test]
fn next_segment_boundary_is_the_whitespace_after_a_block() {
    let (seg, idx) = split_next_segment("Hello $add[x] More").unwrap();
    assert_eq!(seg, "Hello $add[x]");
    assert_eq!(idx, 13);
    let (whole, end) = split_next_segment("no controls here").unwrap();
    assert_eq!(whole, "no controls here");
    assert_eq!(end, 16);
}

#[test]
fn directives_collect_tags_and_requirements() {
    // The first whitespace after a control block ends the segment, so
    // each directive lands in its own segment here.
    let s = Script::from_str("Gate $req[5>3] $add[a b] $rem[c]\n").unwrap();
    assert_eq!(s.segments.len(), 3);
    assert_eq!(s.segments[0].text, "Gate");
    assert!(s.segments[0].requirements.is_some());
    assert_eq!(s.segments[1].text, "");
    assert_eq!(s.segments[1].add_tags, vec!["a", "b"]);
    assert_eq!(s.segments[2].text, "");
    assert_eq!(s.segments[2].remove_tags, vec!["c"]);
}

#[test]
fn options_parse_into_nested_segments() {
    let s = Script::from_str("Pick $opt[A1 $add[oa]\nA2 $add[ob]\n]\nEnd ").unwrap();
    assert_eq!(s.segments.len(), 2);
    assert_eq!(s.segments[0].text, "Pick");
    assert_eq!(s.segments[0].options.len(), 2);
    assert_eq!(s.segments[0].options[0].text, "A1");
    assert_eq!(s.segments[0].options[0].add_tags, vec!["oa"]);
    assert_eq!(s.segments[0].options[1].text, "A2");
    assert_eq!(s.segments[1].text, "End");
}

#[test]
fn reader_walks_roots_and_applies_add_tags() {
    let script = Script::from_str("One $add[a]\nTwo $add[b]\n").unwrap();
    let mut reader = ScriptReader::new();
    let mut p = player();
    reader.set_script("s1", &script, &mut p);
    assert!(reader.is_active());
    assert!(p.has_read("s1"));
    assert_eq!(reader.current_segment().unwrap().text, "One");
    assert_eq!(reader.current_options().len(), 0);

    reader.next(0, &mut p);
    assert!(p.has_tag("a"));
    assert_eq!(reader.current_segment().unwrap().text, "Two");

    reader.next(0, &mut p);
    assert!(p.has_tag("b"));
    assert!(!reader.is_active());
}

#[test]
fn starting_an_already_read_script_is_a_no_op() {
    let script = Script::from_str("One $add[a]\n").unwrap();
    let mut reader = ScriptReader::new();
    let mut p = player();
    reader.set_script("s1", &script, &mut p);
    while reader.is_active() {
        reader.next(0, &mut p);
    }
    let tags_before = p.acquired_tags.len();
    reader.set_script("s1", &script, &mut p);
    assert!(!reader.is_active());
    assert_eq!(p.acquired_tags.len(), tags_before);
    assert_eq!(p.read_scripts.len(), 1);
}

#[test]
fn requirements_skip_invalid_roots() {
    let script = Script::from_str("One $add[stop]\nHidden $req[!stop]\nLast $add[z]\n").unwrap();
    let mut reader = ScriptReader::new();
    let mut p = player();
    reader.set_script("s", &script, &mut p);
    assert_eq!(reader.current_segment().unwrap().text, "One");
    reader.next(0, &mut p);
    // The tag added by the first segment invalidates the second.
    assert_eq!(reader.current_segment().unwrap().text, "Last");
}

#[test]
fn selecting_an_option_descends_and_auto_advances() {
    let script = Script::from_str("Pick $opt[A1 $add[oa]\nA2 $add[ob]\n]\nEnd ").unwrap();
    let mut reader = ScriptReader::new();
    let mut p = player();
    reader.set_script("s", &script, &mut p);
    assert_eq!(reader.current_options(), vec!["A1", "A2"]);
    reader.next(1, &mut p);
    // The chosen leaf mutates tags, so the reader advances to the next
    // root at once.
    assert!(p.has_tag("ob"));
    assert!(!p.has_tag("oa"));
    assert_eq!(reader.current_segment().unwrap().text, "End");
}

#[test]
fn go_back_appears_only_without_tag_changes() {
    let script =
        Script::from_str("Pick $opt[Sub $opt[Deep $add[d]\n]\n]\nEnd ").unwrap();
    let mut reader = ScriptReader::new();
    let mut p = player();
    reader.set_script("s", &script, &mut p);
    assert_eq!(reader.current_options(), vec!["Sub"]);
    reader.next(0, &mut p);
    assert_eq!(reader.current_segment().unwrap().text, "Sub");
    assert_eq!(reader.current_options(), vec!["Deep", "[Go Back]"]);
    // The synthetic index pops back to the root segment.
    reader.next(1, &mut p);
    assert_eq!(reader.current_segment().unwrap().text, "Pick");
}

#[test]
fn back_selection_on_an_empty_path_changes_nothing() {
    let script =
        Script::from_str("Pick $opt[Sub $opt[Deep $add[d]\n]\n]\nEnd ").unwrap();
    let mut reader = ScriptReader::new();
    let mut p = player();
    reader.set_script("s", &script, &mut p);
    // At the root the path is empty; the synthetic back index equals the
    // option count and must not underflow anything.
    reader.next(1, &mut p);
    assert!(reader.is_active());
    assert_eq!(reader.current_segment().unwrap().text, "Pick");
}
