use logfmt::Logfmt;

fn collect_pairs(input: &str) -> Vec<(&str, &str)> {
    let mut it = input.logfmt();
    let mut out = Vec::new();
    while let Some(pair) = it.next() {
        out.push(pair);
    }
    out
}

#[test]
fn logfmt_collect_pairs_all_cases() {
    let cases: &[(&str, &[(&str, &str)])] = &[
        // Empty / whitespace-only
        ("", &[]),
        (" ", &[]),
        ("   \t  ", &[]),
        // Single pair
        ("a=1", &[("a", "1")]),
        ("key=value", &[("key", "value")]),
        // Leading / trailing / repeated separators
        ("  a=1", &[("a", "1")]),
        ("a=1  ", &[("a", "1")]),
        ("a=1   b=2", &[("a", "1"), ("b", "2")]),
        ("a=1\tb=2", &[("a", "1"), ("b", "2")]),
        ("a=1 \t  b=2   c=3", &[("a", "1"), ("b", "2"), ("c", "3")]),
        // Empty value
        ("a=", &[("a", "")]),
        ("a= b=2", &[("a", ""), ("b", "2")]),
        ("a= b=", &[("a", ""), ("b", "")]),
        // Quoted values (spaces kept inside quotes)
        (r#"msg="hello world""#, &[("msg", "hello world")]),
        (
            r#"a=1 msg="hello world" b=2"#,
            &[("a", "1"), ("msg", "hello world"), ("b", "2")],
        ),
        (
            r#"msg="  leading and  internal   spaces  ""#,
            &[("msg", "  leading and  internal   spaces  ")],
        ),
        // Quotes but empty
        (r#"msg="""#, &[("msg", "")]),
        // Values with punctuation / URL-like content
        ("path=/var/log/syslog", &[("path", "/var/log/syslog")]),
        (
            "url=https://example.com/a?b=c&d=e",
            &[("url", "https://example.com/a?b=c&d=e")],
        ),
        ("ip=127.0.0.1", &[("ip", "127.0.0.1")]),
        // Duplicate keys (iterator should yield in order)
        ("a=1 a=2 a=3", &[("a", "1"), ("a", "2"), ("a", "3")]),
        // Weird-but-valid key shapes (depends on your State machine rules)
        ("a_b=1", &[("a_b", "1")]),
        ("a-b=1", &[("a-b", "1")]),
        ("a.b=1", &[("a.b", "1")]),
    ];

    for (input, expected) in cases {
        let got = collect_pairs(input);
        assert_eq!(
            got.as_slice(),
            *expected,
            "mismatch for input: {input:?}\n  got: {got:?}\n  expected: {expected:?}"
        );
    }
}
