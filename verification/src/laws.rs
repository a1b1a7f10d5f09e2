//! The laws of the tokenizer, stated over [`parse`] and proved.
//!
//! Each public proof function here is a statement about whole classes of
//! inputs: whitespace-only text parses to nothing, a well-formed encoding of
//! pairs parses back to exactly those pairs whatever whitespace separates
//! them, quoted values come back verbatim, and the empty-value spellings all
//! agree.

use crate::chars::is_ws;
use crate::model::pairs_from;
use crate::model::parse;
use crate::state::SpecState;
use vstd::prelude::*;

verus! {

/// A character that can stand inside a key: anything but whitespace and `=`.
pub open spec fn is_key_char(c: char) -> bool {
    !is_ws(c) && c != '='
}

/// Every character of `s` is whitespace.
pub open spec fn all_ws(s: Seq<char>) -> bool {
    forall|i: int| 0 <= i < s.len() ==> is_ws(s[i])
}

/// A non-empty key made of key characters.
pub open spec fn wf_key(k: Seq<char>) -> bool {
    &&& k.len() > 0
    &&& forall|i: int| 0 <= i < k.len() ==> is_key_char(k[i])
}

/// A value that can be written without quotes: free of whitespace, and not
/// opening with a quote character.
pub open spec fn wf_bare_value(v: Seq<char>) -> bool {
    &&& forall|i: int| 0 <= i < v.len() ==> !is_ws(v[i])
    &&& v.len() > 0 ==> v[0] != '"'
}

/// Every pair has a well-formed key and a bare, unquoted value.
pub open spec fn wf_pairs(ps: Seq<(Seq<char>, Seq<char>)>) -> bool {
    forall|i: int| 0 <= i < ps.len() ==> wf_key(#[trigger] ps[i].0) && wf_bare_value(ps[i].1)
}

/// One `key=value` token, written without quotes.
pub open spec fn token_chars(k: Seq<char>, v: Seq<char>) -> Seq<char> {
    k + seq!['='] + v
}

/// The tokens of `ps` in order, the token of `ps[i]` followed by the
/// whitespace run `seps[i]`; the last run is the trailing whitespace of the
/// text.
pub open spec fn tokens_chars(ps: Seq<(Seq<char>, Seq<char>)>, seps: Seq<Seq<char>>) -> Seq<char>
    decreases ps.len(),
{
    if ps.len() == 0 {
        Seq::empty()
    } else {
        token_chars(ps[0].0, ps[0].1) + seps[0] + tokens_chars(ps.drop_first(), seps.drop_first())
    }
}

/// Skipping whitespace between tokens: the machine stays in `Init` across any
/// run of whitespace characters.
proof fn lemma_ws_run(text: Seq<char>, p: int, q: int)
    requires
        0 <= p <= q <= text.len(),
        forall|j: int| p <= j < q ==> is_ws(text[j]),
    ensures
        pairs_from(text, p, SpecState::Init) == pairs_from(text, q, SpecState::Init),
    decreases q - p,
{
    if p < q {
        assert(pairs_from(text, p, SpecState::Init) == pairs_from(text, p + 1, SpecState::Init));
        lemma_ws_run(text, p + 1, q);
    }
}

/// The machine stays inside a key across any run of key characters.
proof fn lemma_key_run(text: Seq<char>, p: int, q: int, ks: int)
    requires
        0 <= p <= q <= text.len(),
        forall|j: int| p <= j < q ==> is_key_char(text[j]),
    ensures
        pairs_from(text, p, SpecState::KeyStart(ks)) == pairs_from(
            text,
            q,
            SpecState::KeyStart(ks),
        ),
    decreases q - p,
{
    if p < q {
        lemma_key_run(text, p + 1, q, ks);
    }
}

/// The machine stays inside an unquoted value across any run of
/// non-whitespace characters.
proof fn lemma_value_run(text: Seq<char>, p: int, q: int, ks: int, ke: int, vs: int)
    requires
        0 <= p <= q <= text.len(),
        forall|j: int| p <= j < q ==> !is_ws(text[j]),
    ensures
        pairs_from(text, p, SpecState::ValueStart(ks, ke, vs)) == pairs_from(
            text,
            q,
            SpecState::ValueStart(ks, ke, vs),
        ),
    decreases q - p,
{
    if p < q {
        lemma_value_run(text, p + 1, q, ks, ke, vs);
    }
}

/// The machine stays inside a quoted value across any run of characters
/// other than the quote, whitespace included.
proof fn lemma_quoted_run(text: Seq<char>, p: int, q: int, ks: int, ke: int, vs: int)
    requires
        0 <= p <= q <= text.len(),
        forall|j: int| p <= j < q ==> text[j] != '"',
    ensures
        pairs_from(text, p, SpecState::ValueStartWithQuote(ks, ke, vs)) == pairs_from(
            text,
            q,
            SpecState::ValueStartWithQuote(ks, ke, vs),
        ),
    decreases q - p,
{
    if p < q {
        lemma_quoted_run(text, p + 1, q, ks, ke, vs);
    }
}

/// Whitespace-only text — the empty text included — parses to no pairs at
/// all.
pub proof fn lemma_whitespace_only(text: Seq<char>)
    requires
        all_ws(text),
    ensures
        parse(text) == Seq::<(Seq<char>, Seq<char>)>::empty(),
{
    lemma_ws_run(text, 0, text.len() as int);
}

/// Starting in `Init` at the head of a run of well-formed tokens, the machine
/// emits exactly the encoded pairs. The suffix of `text` from `p` on is the
/// tokens of `ps`, each followed by its whitespace run from `seps`; every run
/// before another token is non-empty, the trailing one may be empty.
proof fn lemma_parse_tokens(
    text: Seq<char>,
    p: int,
    ps: Seq<(Seq<char>, Seq<char>)>,
    seps: Seq<Seq<char>>,
)
    requires
        0 <= p <= text.len(),
        ps.len() == seps.len(),
        wf_pairs(ps),
        forall|i: int| 0 <= i < seps.len() ==> all_ws(#[trigger] seps[i]),
        forall|i: int| 0 <= i < seps.len() - 1 ==> (#[trigger] seps[i]).len() > 0,
        text.subrange(p, text.len() as int) == tokens_chars(ps, seps),
    ensures
        pairs_from(text, p, SpecState::Init) == ps,
    decreases ps.len(),
{
    let ln = text.len() as int;
    let enc = tokens_chars(ps, seps);
    assert(enc.len() == ln - p) by {
        assert(text.subrange(p, ln).len() == ln - p);
    }
    if ps.len() == 0 {
        assert(ps =~= Seq::<(Seq<char>, Seq<char>)>::empty());
    } else {
        let k = ps[0].0;
        let v = ps[0].1;
        let s0 = seps[0];
        let kl = k.len() as int;
        let vl = v.len() as int;
        let sl = s0.len() as int;
        let tl = kl + 1 + vl;
        let rest = tokens_chars(ps.drop_first(), seps.drop_first());
        assert(wf_key(k) && wf_bare_value(v));
        assert(enc == token_chars(k, v) + s0 + rest);
        assert(token_chars(k, v).len() == tl);
        assert(enc.len() == tl + sl + rest.len());
        // How the text reads, region by region.
        assert forall|j: int| 0 <= j < kl implies text[p + j] == k[j] by {
            assert(text.subrange(p, ln)[j] == text[p + j]);
            assert(enc[j] == (token_chars(k, v) + s0)[j]);
            assert((token_chars(k, v) + s0)[j] == token_chars(k, v)[j]);
            assert(token_chars(k, v)[j] == (k + seq!['='])[j]);
        }
        assert(text[p + kl] == '=') by {
            assert(text.subrange(p, ln)[kl] == text[p + kl]);
            assert(enc[kl] == (token_chars(k, v) + s0)[kl]);
            assert((token_chars(k, v) + s0)[kl] == token_chars(k, v)[kl]);
            assert(token_chars(k, v)[kl] == (k + seq!['='])[kl]);
            assert((k + seq!['='])[kl] == seq!['='][0]);
        }
        let q = p + kl + 1;
        let r = q + vl;
        assert forall|j: int| 0 <= j < vl implies text[q + j] == v[j] by {
            assert(text.subrange(p, ln)[kl + 1 + j] == text[p + (kl + 1 + j)]);
            assert(enc[kl + 1 + j] == (token_chars(k, v) + s0)[kl + 1 + j]);
            assert((token_chars(k, v) + s0)[kl + 1 + j] == token_chars(k, v)[kl + 1 + j]);
            assert(token_chars(k, v)[kl + 1 + j] == v[j]);
        }
        assert forall|j: int| 0 <= j < sl implies text[p + tl + j] == s0[j] by {
            assert(text.subrange(p, ln)[tl + j] == text[p + (tl + j)]);
            assert(enc[tl + j] == (token_chars(k, v) + s0)[tl + j]);
            assert((token_chars(k, v) + s0)[tl + j] == s0[j]);
        }
        assert forall|j: int| 0 <= j < rest.len() implies text[p + tl + sl + j] == rest[j] by {
            assert(text.subrange(p, ln)[tl + sl + j] == text[p + (tl + sl + j)]);
            assert(enc[tl + sl + j] == rest[j]);
        }
        // Into the key.
        assert(text[p] == k[0]) by {
            assert(text[p + 0] == k[0]);
        }
        assert(is_key_char(text[p]));
        assert(pairs_from(text, p, SpecState::Init) == pairs_from(
            text,
            p + 1,
            SpecState::KeyStart(p),
        ));
        assert forall|j: int| p + 1 <= j < p + kl implies is_key_char(text[j]) by {
            assert(text[p + (j - p)] == k[j - p]);
        }
        lemma_key_run(text, p + 1, p + kl, p);
        // The `=` ends the key.
        assert(pairs_from(text, p + kl, SpecState::KeyStart(p)) == pairs_from(
            text,
            p + kl + 1,
            SpecState::KeyEnd(p, p + kl),
        ));
        assert(text.subrange(p, p + kl) =~= k) by {
            assert forall|j: int| 0 <= j < kl implies text.subrange(p, p + kl)[j] == k[j] by {
                assert(text.subrange(p, p + kl)[j] == text[p + j]);
            }
        }
        assert(text.subrange(q, r) =~= v) by {
            assert forall|j: int| 0 <= j < vl implies text.subrange(q, r)[j] == v[j] by {
                assert(text.subrange(q, r)[j] == text[q + j]);
            }
        }
        // Through the value, bare or absent.
        if vl > 0 {
            assert(text[q] == v[0]) by {
                assert(text[q + 0] == v[0]);
            }
            assert(!is_ws(text[q]) && text[q] != '"');
            assert(pairs_from(text, q, SpecState::KeyEnd(p, p + kl)) == pairs_from(
                text,
                q + 1,
                SpecState::ValueStart(p, p + kl, q),
            ));
            assert forall|j: int| q + 1 <= j < r implies !is_ws(text[j]) by {
                assert(text[q + (j - q)] == v[j - q]);
            }
            lemma_value_run(text, q + 1, r, p, p + kl, q);
        }
        if sl > 0 {
            // The separator ends the token and the machine drains it.
            assert(text[r] == s0[0]) by {
                assert(text[p + tl + 0] == s0[0]);
            }
            assert(is_ws(text[r]));
            if vl > 0 {
                assert(pairs_from(text, r, SpecState::ValueStart(p, p + kl, q)) == seq![
                    (text.subrange(p, p + kl), text.subrange(q, r)),
                ] + pairs_from(text, r + 1, SpecState::Init));
            } else {
                assert(pairs_from(text, r, SpecState::KeyEnd(p, p + kl)) == seq![
                    (text.subrange(p, p + kl), text.subrange(q, r)),
                ] + pairs_from(text, r + 1, SpecState::Init));
            }
            assert forall|j: int| r + 1 <= j < r + sl implies is_ws(text[j]) by {
                assert(text[p + tl + (j - r)] == s0[j - r]);
            }
            lemma_ws_run(text, r + 1, r + sl);
            // The rest of the text encodes the rest of the pairs.
            assert(text.subrange(r + sl, ln) =~= rest) by {
                assert forall|j: int| 0 <= j < ln - (r + sl) implies text.subrange(r + sl, ln)[j]
                    == rest[j] by {
                    assert(text.subrange(r + sl, ln)[j] == text[r + sl + j]);
                    assert(text[p + tl + sl + j] == rest[j]);
                }
            }
            assert(wf_pairs(ps.drop_first())) by {
                assert forall|i: int| 0 <= i < ps.drop_first().len() implies wf_key(
                    #[trigger] ps.drop_first()[i].0,
                ) && wf_bare_value(ps.drop_first()[i].1) by {
                    assert(ps.drop_first()[i] == ps[i + 1]);
                    assert(wf_key(ps[i + 1].0) && wf_bare_value(ps[i + 1].1));
                }
            }
            assert forall|i: int| 0 <= i < seps.drop_first().len() implies all_ws(
                #[trigger] seps.drop_first()[i],
            ) by {
                assert(seps.drop_first()[i] == seps[i + 1]);
            }
            assert forall|i: int| 0 <= i < seps.drop_first().len() - 1 implies (
            #[trigger] seps.drop_first()[i]).len() > 0 by {
                assert(seps.drop_first()[i] == seps[i + 1]);
            }
            lemma_parse_tokens(text, r + sl, ps.drop_first(), seps.drop_first());
            assert(seq![(k, v)] + ps.drop_first() =~= ps);
        } else {
            // An empty run is only allowed after the last token: the text
            // ends with this token and the end-of-input rules emit it.
            assert(ps.len() == 1);
            assert(ps.drop_first().len() == 0);
            assert(rest.len() == 0);
            assert(r == ln);
            if vl > 0 {
                assert(pairs_from(text, r, SpecState::ValueStart(p, p + kl, q)) == seq![
                    (text.subrange(p, p + kl), text.subrange(q, ln)),
                ]);
            } else {
                assert(pairs_from(text, r, SpecState::KeyEnd(p, p + kl)) == seq![
                    (text.subrange(p, p + kl), Seq::<char>::empty()),
                ]);
                assert(Seq::<char>::empty() =~= v);
            }
            assert(seq![(k, v)] =~= ps);
        }
    }
}

/// Well-formed `key=value` tokens, separated and surrounded by arbitrary runs
/// of whitespace, parse to exactly those pairs: in order, duplicates
/// preserved, and with no extra pairs for the whitespace. `lead` is the
/// leading whitespace of the text; `seps[i]` is the whitespace after the
/// `i`-th token, non-empty except possibly after the last.
pub proof fn lemma_parse_encoding(
    lead: Seq<char>,
    ps: Seq<(Seq<char>, Seq<char>)>,
    seps: Seq<Seq<char>>,
)
    requires
        all_ws(lead),
        ps.len() == seps.len(),
        wf_pairs(ps),
        forall|i: int| 0 <= i < seps.len() ==> all_ws(#[trigger] seps[i]),
        forall|i: int| 0 <= i < seps.len() - 1 ==> (#[trigger] seps[i]).len() > 0,
    ensures
        parse(lead + tokens_chars(ps, seps)) == ps,
{
    let text = lead + tokens_chars(ps, seps);
    let dl = lead.len() as int;
    let ln = text.len() as int;
    assert forall|j: int| 0 <= j < dl implies is_ws(text[j]) by {
        assert(text[j] == lead[j]);
    }
    lemma_ws_run(text, 0, dl);
    assert(text.subrange(dl, ln) =~= tokens_chars(ps, seps));
    lemma_parse_tokens(text, dl, ps, seps);
}

/// The tokens of `ps` in order, joined by single spaces.
pub open spec fn space_joined(ps: Seq<(Seq<char>, Seq<char>)>) -> Seq<char>
    decreases ps.len(),
{
    if ps.len() == 0 {
        Seq::empty()
    } else if ps.len() == 1 {
        token_chars(ps[0].0, ps[0].1)
    } else {
        token_chars(ps[0].0, ps[0].1) + seq![' '] + space_joined(ps.drop_first())
    }
}

/// The whitespace run after each token in a single-space joining: one space
/// between tokens, nothing after the last.
spec fn single_space_seps(n: int) -> Seq<Seq<char>> {
    Seq::new(n as nat, |i: int| if i == n - 1 {
        Seq::<char>::empty()
    } else {
        seq![' ']
    })
}

/// A single-space joining is the whitespace encoding whose runs are single
/// spaces, with nothing before the first token or after the last.
proof fn lemma_space_joined_is_encoding(ps: Seq<(Seq<char>, Seq<char>)>)
    requires
        ps.len() > 0,
    ensures
        space_joined(ps) == tokens_chars(ps, single_space_seps(ps.len() as int)),
    decreases ps.len(),
{
    let n = ps.len() as int;
    let seps = single_space_seps(n);
    if ps.len() == 1 {
        assert(ps.drop_first().len() == 0);
        assert(tokens_chars(ps.drop_first(), seps.drop_first()) == Seq::<char>::empty());
        assert(token_chars(ps[0].0, ps[0].1) + Seq::<char>::empty() + Seq::<char>::empty()
            =~= token_chars(ps[0].0, ps[0].1));
    } else {
        lemma_space_joined_is_encoding(ps.drop_first());
        assert(seps.drop_first() =~= single_space_seps(n - 1));
        assert(seps[0] == seq![' ']);
    }
}

/// Well-formed tokens `k1=v1 k2=v2 ... kn=vn`, joined by single spaces, parse
/// to exactly `[(k1, v1), ..., (kn, vn)]`: order and duplicates preserved.
pub proof fn lemma_parse_space_separated(ps: Seq<(Seq<char>, Seq<char>)>)
    requires
        wf_pairs(ps),
        ps.len() > 0,
    ensures
        parse(space_joined(ps)) == ps,
{
    let n = ps.len() as int;
    let seps = single_space_seps(n);
    lemma_space_joined_is_encoding(ps);
    assert forall|i: int| 0 <= i < seps.len() implies all_ws(#[trigger] seps[i]) by {
        assert(' ' as u32 == 0x20);
        if i < n - 1 {
            assert forall|j: int| 0 <= j < seps[i].len() implies is_ws(seps[i][j]) by {
                assert(seps[i][j] == ' ');
            }
        }
    }
    lemma_parse_encoding(Seq::<char>::empty(), ps, seps);
    assert(Seq::<char>::empty() + tokens_chars(ps, seps) =~= tokens_chars(ps, seps));
}

/// A quoted value comes back verbatim: whatever stands between the quotes —
/// leading, trailing and internal whitespace included — is the emitted value,
/// and the delimiting quotes themselves are not part of it.
pub proof fn lemma_quoted_value_verbatim(k: Seq<char>, v: Seq<char>)
    requires
        wf_key(k),
        forall|i: int| 0 <= i < v.len() ==> v[i] != '"',
    ensures
        parse(k + seq!['=', '"'] + v + seq!['"']) == seq![(k, v)],
{
    let text = k + seq!['=', '"'] + v + seq!['"'];
    let kl = k.len() as int;
    let vl = v.len() as int;
    let ln = text.len() as int;
    assert(ln == kl + 2 + vl + 1);
    assert forall|j: int| 0 <= j < kl implies text[j] == k[j] by {
        assert((k + seq!['=', '"'])[j] == k[j]);
        assert((k + seq!['=', '"'] + v)[j] == (k + seq!['=', '"'])[j]);
    }
    assert(text[kl] == '=') by {
        assert((k + seq!['=', '"'])[kl] == seq!['=', '"'][0]);
        assert((k + seq!['=', '"'] + v)[kl] == (k + seq!['=', '"'])[kl]);
    }
    assert(text[kl + 1] == '"') by {
        assert((k + seq!['=', '"'])[kl + 1] == seq!['=', '"'][1]);
        assert((k + seq!['=', '"'] + v)[kl + 1] == (k + seq!['=', '"'])[kl + 1]);
    }
    assert forall|j: int| 0 <= j < vl implies text[kl + 2 + j] == v[j] by {
        assert((k + seq!['=', '"'] + v)[kl + 2 + j] == v[j]);
    }
    assert(text[kl + 2 + vl] == seq!['"'][0]);
    assert(text[kl + 2 + vl] == '"');
    // Into the key.
    assert(text[0] == k[0]);
    assert(is_key_char(text[0]));
    assert(pairs_from(text, 0, SpecState::Init) == pairs_from(text, 1, SpecState::KeyStart(0)));
    assert forall|j: int| 1 <= j < kl implies is_key_char(text[j]) by {
        assert(text[j] == k[j]);
    }
    lemma_key_run(text, 1, kl, 0);
    // `=`, then the opening quote.
    assert(pairs_from(text, kl, SpecState::KeyStart(0)) == pairs_from(
        text,
        kl + 1,
        SpecState::KeyEnd(0, kl),
    ));
    assert(pairs_from(text, kl + 1, SpecState::KeyEnd(0, kl)) == pairs_from(
        text,
        kl + 2,
        SpecState::ValueStartWithQuote(0, kl, kl + 2),
    ));
    // The quoted run absorbs everything up to the closing quote.
    assert forall|j: int| kl + 2 <= j < kl + 2 + vl implies text[j] != '"' by {
        assert(text[kl + 2 + (j - kl - 2)] == v[j - kl - 2]);
    }
    lemma_quoted_run(text, kl + 2, kl + 2 + vl, 0, kl, kl + 2);
    // The closing quote emits the pair and the pass ends.
    assert(pairs_from(text, kl + 2 + vl, SpecState::ValueStartWithQuote(0, kl, kl + 2)) == seq![
        (text.subrange(0, kl), text.subrange(kl + 2, kl + 2 + vl)),
    ] + pairs_from(text, ln, SpecState::Init));
    assert(text.subrange(0, kl) =~= k) by {
        assert forall|j: int| 0 <= j < kl implies text.subrange(0, kl)[j] == k[j] by {
            assert(text.subrange(0, kl)[j] == text[j]);
        }
    }
    assert(text.subrange(kl + 2, kl + 2 + vl) =~= v) by {
        assert forall|j: int| 0 <= j < vl implies text.subrange(kl + 2, kl + 2 + vl)[j] == v[j] by {
            assert(text.subrange(kl + 2, kl + 2 + vl)[j] == text[kl + 2 + j]);
        }
    }
    assert(parse(text) =~= seq![(k, v)]);
}

/// The three spellings of an empty value agree: a quoted empty value, a key
/// with `=` at the end of the input, and a key with `=` before a whitespace
/// character `c` all yield the single pair `(key, "")`.
pub proof fn lemma_empty_value_forms(k: Seq<char>, c: char)
    requires
        wf_key(k),
        is_ws(c),
    ensures
        parse(k + seq!['=', '"', '"']) == seq![(k, Seq::<char>::empty())],
        parse(k + seq!['=']) == seq![(k, Seq::<char>::empty())],
        parse(k + seq!['=', c]) == seq![(k, Seq::<char>::empty())],
{
    let kl = k.len() as int;
    lemma_quoted_value_verbatim(k, Seq::<char>::empty());
    assert(k + seq!['=', '"'] + Seq::<char>::empty() + seq!['"'] =~= k + seq!['=', '"', '"']);
    // A key with `=` at the very end of the input.
    let tb = k + seq!['='];
    assert(tb.len() == kl + 1);
    assert forall|j: int| 0 <= j < kl implies tb[j] == k[j] by {}
    assert(tb[kl] == seq!['='][0]);
    assert(tb[0] == k[0]);
    assert(is_key_char(tb[0]));
    assert(pairs_from(tb, 0, SpecState::Init) == pairs_from(tb, 1, SpecState::KeyStart(0)));
    assert forall|j: int| 1 <= j < kl implies is_key_char(tb[j]) by {
        assert(tb[j] == k[j]);
    }
    lemma_key_run(tb, 1, kl, 0);
    assert(pairs_from(tb, kl, SpecState::KeyStart(0)) == pairs_from(
        tb,
        kl + 1,
        SpecState::KeyEnd(0, kl),
    ));
    assert(pairs_from(tb, kl + 1, SpecState::KeyEnd(0, kl)) == seq![
        (tb.subrange(0, kl), Seq::<char>::empty()),
    ]);
    assert(tb.subrange(0, kl) =~= k) by {
        assert forall|j: int| 0 <= j < kl implies tb.subrange(0, kl)[j] == k[j] by {
            assert(tb.subrange(0, kl)[j] == tb[j]);
        }
    }
    assert(parse(tb) =~= seq![(k, Seq::<char>::empty())]);
    // A key with `=` before whitespace, with no value between them.
    let tc = k + seq!['=', c];
    assert(tc.len() == kl + 2);
    assert forall|j: int| 0 <= j < kl implies tc[j] == k[j] by {}
    assert(tc[kl] == seq!['=', c][0]);
    assert(tc[kl + 1] == seq!['=', c][1]);
    assert(tc[0] == k[0]);
    assert(is_key_char(tc[0]));
    assert(pairs_from(tc, 0, SpecState::Init) == pairs_from(tc, 1, SpecState::KeyStart(0)));
    assert forall|j: int| 1 <= j < kl implies is_key_char(tc[j]) by {
        assert(tc[j] == k[j]);
    }
    lemma_key_run(tc, 1, kl, 0);
    assert(pairs_from(tc, kl, SpecState::KeyStart(0)) == pairs_from(
        tc,
        kl + 1,
        SpecState::KeyEnd(0, kl),
    ));
    assert(is_ws(tc[kl + 1]));
    assert(pairs_from(tc, kl + 1, SpecState::KeyEnd(0, kl)) == seq![
        (tc.subrange(0, kl), tc.subrange(kl + 1, kl + 1)),
    ] + pairs_from(tc, kl + 2, SpecState::Init));
    assert(tc.subrange(0, kl) =~= k) by {
        assert forall|j: int| 0 <= j < kl implies tc.subrange(0, kl)[j] == k[j] by {
            assert(tc.subrange(0, kl)[j] == tc[j]);
        }
    }
    assert(tc.subrange(kl + 1, kl + 1) =~= Seq::<char>::empty());
    assert(parse(tc) =~= seq![(k, Seq::<char>::empty())]);
}

/// A bare token with no `=` before the end of the input is silently skipped:
/// it contributes no pair.
pub proof fn lemma_bare_token_dropped(k: Seq<char>)
    requires
        wf_key(k),
    ensures
        parse(k) == Seq::<(Seq<char>, Seq<char>)>::empty(),
{
    let kl = k.len() as int;
    assert(is_key_char(k[0]));
    assert(pairs_from(k, 0, SpecState::Init) == pairs_from(k, 1, SpecState::KeyStart(0)));
    lemma_key_run(k, 1, kl, 0);
    assert(pairs_from(k, kl, SpecState::KeyStart(0)) =~= Seq::<(Seq<char>, Seq<char>)>::empty());
}

/// An opened quote never closed before the end of the input is silently
/// dropped, and the key that preceded it is lost with it.
pub proof fn lemma_unterminated_quote_dropped(k: Seq<char>, v: Seq<char>)
    requires
        wf_key(k),
        forall|i: int| 0 <= i < v.len() ==> v[i] != '"',
    ensures
        parse(k + seq!['=', '"'] + v) == Seq::<(Seq<char>, Seq<char>)>::empty(),
{
    let text = k + seq!['=', '"'] + v;
    let kl = k.len() as int;
    let vl = v.len() as int;
    let ln = text.len() as int;
    assert(ln == kl + 2 + vl);
    assert forall|j: int| 0 <= j < kl implies text[j] == k[j] by {
        assert((k + seq!['=', '"'])[j] == k[j]);
    }
    assert(text[kl] == '=') by {
        assert((k + seq!['=', '"'])[kl] == seq!['=', '"'][0]);
    }
    assert(text[kl + 1] == '"') by {
        assert((k + seq!['=', '"'])[kl + 1] == seq!['=', '"'][1]);
    }
    assert forall|j: int| 0 <= j < vl implies text[kl + 2 + j] == v[j] by {}
    assert(text[0] == k[0]);
    assert(is_key_char(text[0]));
    assert(pairs_from(text, 0, SpecState::Init) == pairs_from(text, 1, SpecState::KeyStart(0)));
    assert forall|j: int| 1 <= j < kl implies is_key_char(text[j]) by {
        assert(text[j] == k[j]);
    }
    lemma_key_run(text, 1, kl, 0);
    assert(pairs_from(text, kl, SpecState::KeyStart(0)) == pairs_from(
        text,
        kl + 1,
        SpecState::KeyEnd(0, kl),
    ));
    assert(pairs_from(text, kl + 1, SpecState::KeyEnd(0, kl)) == pairs_from(
        text,
        kl + 2,
        SpecState::ValueStartWithQuote(0, kl, kl + 2),
    ));
    assert forall|j: int| kl + 2 <= j < ln implies text[j] != '"' by {
        assert(text[kl + 2 + (j - kl - 2)] == v[j - kl - 2]);
    }
    lemma_quoted_run(text, kl + 2, ln, 0, kl, kl + 2);
    assert(pairs_from(text, ln, SpecState::ValueStartWithQuote(0, kl, kl + 2)) =~= Seq::<
        (Seq<char>, Seq<char>),
    >::empty());
}

} // verus!
