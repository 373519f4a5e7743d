use wol::args::preprocess;

fn expand(args: &[&str], shorts: &'static str) -> Vec<String> {
    let owned: Vec<String> = args.iter().map(|s| s.to_string()).collect();
    let mut pre = preprocess(&owned, shorts);
    pre.collect_all()
}

#[test]
fn bundled_flags_split_in_order() {
    assert_eq!(expand(&["-abc"], "di"), vec!["-a", "-b", "-c"]);
}

#[test]
fn attached_value_splits_off() {
    assert_eq!(expand(&["-dfoo"], "di"), vec!["-d", "foo"]);
}

#[test]
fn value_flag_inside_cluster_takes_the_rest() {
    assert_eq!(expand(&["-qdfoo-x"], "di"), vec!["-q", "-d", "foo-x"]);
    assert_eq!(expand(&["-qd"], "di"), vec!["-q", "-d"]);
}

#[test]
fn long_flag_with_value_splits() {
    assert_eq!(expand(&["--name=val"], "di"), vec!["--name", "val"]);
    assert_eq!(expand(&["--device=a=b"], "di"), vec!["--device", "a=b"]);
}

#[test]
fn degenerate_long_flag_stays_whole() {
    assert_eq!(expand(&["--=val"], "di"), vec!["--=val"]);
    assert_eq!(expand(&["--x"], "di"), vec!["--x"]);
}

#[test]
fn numeric_tokens_pass_through() {
    assert_eq!(expand(&["-42"], "di"), vec!["-42"]);
    assert_eq!(expand(&["-3"], "di"), vec!["-3"]);
    assert_eq!(expand(&["-3abc"], "di"), vec!["-3abc"]);
}

#[test]
fn lone_dash_and_single_flag_pass_through() {
    assert_eq!(expand(&["-"], "di"), vec!["-"]);
    assert_eq!(expand(&["-q"], "di"), vec!["-q"]);
    assert_eq!(expand(&["plain"], "di"), vec!["plain"]);
}

#[test]
fn everything_after_double_dash_is_verbatim() {
    assert_eq!(
        expand(&["-qf", "--", "-ab", "--", "--x=1", "-5"], "di"),
        vec!["-q", "-f", "-ab", "--", "--x=1", "-5"]
    );
}

#[test]
fn empty_input_gives_no_tokens() {
    assert_eq!(expand(&[], "di"), Vec::<String>::new());
    assert_eq!(expand(&["--"], "di"), Vec::<String>::new());
}

#[test]
fn next_yields_tokens_one_at_a_time() {
    let owned: Vec<String> = vec!["-ab".to_string(), "x".to_string()];
    let mut pre = preprocess(&owned, "");
    assert_eq!(pre.next().as_deref(), Some("-a"));
    assert_eq!(pre.next().as_deref(), Some("-b"));
    assert_eq!(pre.next().as_deref(), Some("x"));
    assert_eq!(pre.next(), None);
    assert_eq!(pre.next(), None);
}
