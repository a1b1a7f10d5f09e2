use logfmt::is_whitespace_char;
use logfmt::Logfmt;
use logfmt::State;

fn collect_pairs(input: &str) -> Vec<(&str, &str)> {
    let mut it = input.logfmt();
    let mut out = Vec::new();
    while let Some(pair) = it.next() {
        out.push(pair);
    }
    out
}

#[test]
fn whitespace_only_inputs_yield_nothing() {
    let empty: &[(&str, &str)] = &[];
    assert_eq!(collect_pairs(""), empty);
    assert_eq!(collect_pairs(" "), empty);
    assert_eq!(collect_pairs("\t"), empty);
    assert_eq!(collect_pairs("  \t \t   "), empty);
    assert_eq!(collect_pairs("\u{00A0}\u{2003}\n"), empty);
}

#[test]
fn well_formed_tokens_parse_in_order_with_duplicates() {
    assert_eq!(
        collect_pairs("k1=v1 k2=v2 k3=v3"),
        vec![("k1", "v1"), ("k2", "v2"), ("k3", "v3")]
    );
    assert_eq!(collect_pairs("a=1 a=2"), vec![("a", "1"), ("a", "2")]);
}

#[test]
fn quoted_values_keep_whitespace_verbatim_without_the_quotes() {
    assert_eq!(
        collect_pairs(r#"msg=" a  b ""#),
        vec![("msg", " a  b ")]
    );
    assert_eq!(
        collect_pairs("note=\"one\ttwo\""),
        vec![("note", "one\ttwo")]
    );
}

#[test]
fn empty_value_spellings_agree() {
    assert_eq!(collect_pairs(r#"k="""#), vec![("k", "")]);
    assert_eq!(collect_pairs("k="), vec![("k", "")]);
    assert_eq!(collect_pairs("k= x=1"), vec![("k", ""), ("x", "1")]);
}

#[test]
fn whitespace_runs_act_as_one_separator() {
    assert_eq!(
        collect_pairs("  a=1 \t\t  b=2   "),
        vec![("a", "1"), ("b", "2")]
    );
}

#[test]
fn concrete_scenarios() {
    let empty: &[(&str, &str)] = &[];
    assert_eq!(collect_pairs(""), empty);
    assert_eq!(collect_pairs("a=1"), vec![("a", "1")]);
    assert_eq!(collect_pairs("a=1   b=2"), vec![("a", "1"), ("b", "2")]);
    assert_eq!(
        collect_pairs(r#"msg="hello world""#),
        vec![("msg", "hello world")]
    );
    assert_eq!(collect_pairs("a=1 a=2"), vec![("a", "1"), ("a", "2")]);
    assert_eq!(collect_pairs(r#"msg=""#), empty);
}

#[test]
fn malformed_fragments_are_absorbed() {
    let empty: &[(&str, &str)] = &[];
    // A bare token with no `=` contributes no pair.
    assert_eq!(collect_pairs("orphan"), empty);
    assert_eq!(collect_pairs("a=1 trailing"), vec![("a", "1")]);
    // An unterminated quote drops the value and its key.
    assert_eq!(collect_pairs(r#"a=1 msg="oops"#), vec![("a", "1")]);
    // An unterminated bare value runs to the end of the input.
    assert_eq!(collect_pairs("a=1 b=2trailing"), vec![("a", "1"), ("b", "2trailing")]);
}

#[test]
fn multibyte_characters_slice_cleanly() {
    assert_eq!(collect_pairs("héllo=wörld"), vec![("héllo", "wörld")]);
    assert_eq!(
        collect_pairs("κλειδί=τιμή μήνυμα=\"γειά σου\""),
        vec![("κλειδί", "τιμή"), ("μήνυμα", "γειά σου")]
    );
}

#[test]
fn pass_is_finished_once_exhausted() {
    let mut it = "a=1".logfmt();
    assert!(matches!(it.next(), Some(("a", "1"))));
    assert!(it.next().is_none());
    assert!(it.next().is_none());
}

#[test]
fn state_transitions_follow_the_table() {
    assert!(matches!(State::Init.next(0, ' '), State::Init));
    assert!(matches!(State::Init.next(3, 'k'), State::KeyStart(3)));
    assert!(matches!(State::KeyStart(3).next(5, '='), State::KeyEnd(3, 5)));
    assert!(matches!(State::KeyStart(3).next(5, ' '), State::Init));
    assert!(matches!(State::KeyStart(3).next(5, 'x'), State::KeyStart(3)));
    assert!(matches!(
        State::KeyEnd(3, 5).next(6, '"'),
        State::ValueStartWithQuote(3, 5, 7)
    ));
    assert!(matches!(
        State::KeyEnd(3, 5).next(6, ' '),
        State::ValueEnd(3, 5, 6, 6)
    ));
    assert!(matches!(
        State::KeyEnd(3, 5).next(6, 'v'),
        State::ValueStart(3, 5, 6)
    ));
    assert!(matches!(
        State::ValueStart(3, 5, 6).next(8, ' '),
        State::ValueEnd(3, 5, 6, 8)
    ));
    assert!(matches!(
        State::ValueStart(3, 5, 6).next(8, 'v'),
        State::ValueStart(3, 5, 6)
    ));
    assert!(matches!(
        State::ValueStartWithQuote(3, 5, 7).next(9, ' '),
        State::ValueStartWithQuote(3, 5, 7)
    ));
    assert!(matches!(
        State::ValueStartWithQuote(3, 5, 7).next(9, '"'),
        State::ValueEnd(3, 5, 7, 9)
    ));
    assert!(matches!(State::ValueEnd(3, 5, 7, 9).next(10, 'x'), State::Init));
}

#[test]
fn whitespace_test_covers_unicode_white_space() {
    assert!(is_whitespace_char(' '));
    assert!(is_whitespace_char('\t'));
    assert!(is_whitespace_char('\n'));
    assert!(is_whitespace_char('\r'));
    assert!(is_whitespace_char('\u{00A0}'));
    assert!(is_whitespace_char('\u{2009}'));
    assert!(is_whitespace_char('\u{3000}'));
    assert!(!is_whitespace_char('='));
    assert!(!is_whitespace_char('"'));
    assert!(!is_whitespace_char('x'));
    assert!(!is_whitespace_char('\u{200B}'));
}
