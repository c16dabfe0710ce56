use kiorg::paths::{join, trim};
use kiorg::portal::{
    choose_kiorg_binary, decode_current_folder, path_candidates, picker_command_args,
    picker_response, RESPONSE_CANCELLED, RESPONSE_OTHER, RESPONSE_SUCCESS,
};

fn s(x: &str) -> String {
    x.to_string()
}

#[test]
fn response_lists_file_uris() {
    let r = picker_response(true, Some(s("/a/b\n\n/c d\n")));
    assert_eq!(r.code, RESPONSE_SUCCESS);
    assert_eq!(r.uris, vec![s("file:///a/b"), s("file:///c d")]);
}

#[test]
fn response_codes_for_failures() {
    assert_eq!(picker_response(false, Some(s("/a"))).code, RESPONSE_CANCELLED);
    assert_eq!(picker_response(true, None).code, RESPONSE_OTHER);
    let r = picker_response(true, Some(s("\n\n")));
    assert_eq!(r.code, RESPONSE_CANCELLED);
    assert!(r.uris.is_empty());
}

#[test]
fn command_args_carry_the_flags() {
    let a = picker_command_args(s("/tmp/r"), true, false, true, Some(s("/home")));
    assert_eq!(a, vec![s("--pick-mode"), s("/tmp/r"), s("--pick-multiple"), s("--pick-save"), s("/home")]);
    let b = picker_command_args(s("/tmp/r"), false, true, false, None);
    assert_eq!(b, vec![s("--pick-mode"), s("/tmp/r"), s("--pick-directory")]);
}

#[test]
fn current_folder_is_read_up_to_the_nul() {
    assert_eq!(decode_current_folder(&b"/home/u\0junk".to_vec()), Some(s("/home/u")));
    assert_eq!(decode_current_folder(&b"/home/u".to_vec()), Some(s("/home/u")));
    assert_eq!(decode_current_folder(&vec![0xff, 0xfe]), None);
    assert_eq!(decode_current_folder(&vec![0xff, 0]), None);
}

#[test]
fn path_candidates_join_kiorg() {
    assert_eq!(path_candidates("/usr/bin:/opt/x/:"), vec![s("/usr/bin/kiorg"), s("/opt/x/kiorg"), s("kiorg")]);
}

#[test]
fn binary_choice_order() {
    let cands = vec![(s("/a/kiorg"), false), (s("/b/kiorg"), true)];
    assert_eq!(choose_kiorg_binary(Some(s("/o")), Some((s("/s"), true)), &cands), "/o");
    assert_eq!(choose_kiorg_binary(None, Some((s("/s"), true)), &cands), "/s");
    assert_eq!(choose_kiorg_binary(None, Some((s("/s"), false)), &cands), "/b/kiorg");
    assert_eq!(choose_kiorg_binary(None, None, &vec![]), "kiorg");
}

#[test]
fn paths_join_as_std_does() {
    assert_eq!(join("/d", "x"), "/d/x");
    assert_eq!(join("/d/", "x"), "/d/x");
    assert_eq!(join("", "x"), "x");
    assert_eq!(join("/d", "/abs"), "/abs");
}

#[test]
fn trim_removes_unicode_whitespace() {
    assert_eq!(trim("\u{3000} a b\t\n"), "a b");
    assert_eq!(trim("   "), "");
}
