//! Markup helpers for the SVG charts.
use vstd::prelude::*;
use crate::text::push_char;

verus! {

/// The markup for one character of text content.
pub open spec fn escape_char(c: char) -> Seq<char> {
    if c == '&' {
        "&amp;"@
    } else if c == '<' {
        "&lt;"@
    } else if c == '>' {
        "&gt;"@
    } else if c == '"' {
        "&quot;"@
    } else if c == '\'' {
        "&apos;"@
    } else {
        seq![c]
    }
}

/// Text with every markup-significant character replaced by its entity.
pub open spec fn escaped(s: Seq<char>) -> Seq<char>
    decreases s.len(),
{
    if s.len() == 0 {
        Seq::<char>::empty()
    } else {
        escaped(s.drop_last()) + escape_char(s.last())
    }
}

/// A character that cannot appear literally in attribute values or text.
pub open spec fn is_markup_char(c: char) -> bool {
    c == '<' || c == '>' || c == '"' || c == '\''
}

/// Escapes `&`, `<`, `>`, `"` and `'` for use in SVG text and attributes.
pub fn escape(text: &str) -> (r: String)
    ensures
        r@ == escaped(text@),
{
    let mut r = String::new();
    for c in it: text.chars()
        invariant
            r@ == escaped(it.seq().take(it.index() as int)),
            it.seq() == text@,
    {
        let ghost done = it.seq().take(it.index() as int);
        proof {
            assert(it.seq().take(it.index() + 1).drop_last() =~= done);
        }
        if c == '&' {
            r.append("&amp;");
        } else if c == '<' {
            r.append("&lt;");
        } else if c == '>' {
            r.append("&gt;");
        } else if c == '"' {
            r.append("&quot;");
        } else if c == '\'' {
            r.append("&apos;");
        } else {
            push_char(&mut r, c);
        }
    }
    proof {
        assert(text@.take(text@.len() as int) =~= text@);
    }
    r
}

/// Escaped text contains none of `<`, `>`, `"` and `'`.
pub proof fn lemma_escaped_has_no_markup(s: Seq<char>)
    ensures
        forall|i: int| 0 <= i < escaped(s).len() ==> !is_markup_char(#[trigger] escaped(s)[i]),
    decreases s.len(),
{
    reveal_strlit("&amp;");
    reveal_strlit("&lt;");
    reveal_strlit("&gt;");
    reveal_strlit("&quot;");
    reveal_strlit("&apos;");
    if s.len() > 0 {
        lemma_escaped_has_no_markup(s.drop_last());
        let prev = escaped(s.drop_last());
        let tail = escape_char(s.last());
        assert forall|i: int| 0 <= i < escaped(s).len() implies !is_markup_char(
            #[trigger] escaped(s)[i],
        ) by {
            if i < prev.len() {
                assert(escaped(s)[i] == prev[i]);
            } else {
                assert(escaped(s)[i] == tail[i - prev.len()]);
            }
        }
    }
}

/// One of the five characters that escaping replaces.
pub open spec fn is_escaped_char(c: char) -> bool {
    c == '&' || is_markup_char(c)
}

/// Position `i` of `t` starts one of the five entities.
pub open spec fn is_entity_at(t: Seq<char>, i: int) -> bool {
    ||| (0 <= i && i + 5 <= t.len() && t.subrange(i, i + 5) == "&amp;"@)
    ||| (0 <= i && i + 4 <= t.len() && t.subrange(i, i + 4) == "&lt;"@)
    ||| (0 <= i && i + 4 <= t.len() && t.subrange(i, i + 4) == "&gt;"@)
    ||| (0 <= i && i + 6 <= t.len() && t.subrange(i, i + 6) == "&quot;"@)
    ||| (0 <= i && i + 6 <= t.len() && t.subrange(i, i + 6) == "&apos;"@)
}

/// Reading markup back into text: each of the five entities, left to right, becomes
/// the character it stands for; every other character stays.
pub open spec fn unescaped(t: Seq<char>) -> Seq<char>
    decreases t.len(),
{
    if t.len() == 0 {
        Seq::<char>::empty()
    } else if t.len() >= 5 && t.take(5) == "&amp;"@ {
        seq!['&'] + unescaped(t.skip(5))
    } else if t.len() >= 4 && t.take(4) == "&lt;"@ {
        seq!['<'] + unescaped(t.skip(4))
    } else if t.len() >= 4 && t.take(4) == "&gt;"@ {
        seq!['>'] + unescaped(t.skip(4))
    } else if t.len() >= 6 && t.take(6) == "&quot;"@ {
        seq!['"'] + unescaped(t.skip(6))
    } else if t.len() >= 6 && t.take(6) == "&apos;"@ {
        seq!['\''] + unescaped(t.skip(6))
    } else {
        seq![t[0]] + unescaped(t.skip(1))
    }
}

proof fn reveal_entities()
    ensures
        "&amp;"@ == seq!['&', 'a', 'm', 'p', ';'],
        "&lt;"@ == seq!['&', 'l', 't', ';'],
        "&gt;"@ == seq!['&', 'g', 't', ';'],
        "&quot;"@ == seq!['&', 'q', 'u', 'o', 't', ';'],
        "&apos;"@ == seq!['&', 'a', 'p', 'o', 's', ';'],
{
    reveal_strlit("&amp;");
    reveal_strlit("&lt;");
    reveal_strlit("&gt;");
    reveal_strlit("&quot;");
    reveal_strlit("&apos;");
}

/// Escaping distributes over concatenation.
proof fn lemma_escaped_concat(a: Seq<char>, b: Seq<char>)
    ensures
        escaped(a + b) == escaped(a) + escaped(b),
    decreases b.len(),
{
    if b.len() == 0 {
        assert(a + b =~= a);
        assert(escaped(a) + escaped(b) =~= escaped(a));
    } else {
        assert((a + b).drop_last() =~= a + b.drop_last());
        assert((a + b).last() == b.last());
        lemma_escaped_concat(a, b.drop_last());
        assert(escaped(a + b) =~= escaped(a) + escaped(b));
    }
}

/// Reading back the markup of one character followed by more markup gives that
/// character followed by the reading of the rest.
proof fn lemma_unescape_one(c: char, u: Seq<char>)
    ensures
        unescaped(escape_char(c) + u) == seq![c] + unescaped(u),
{
    reveal_entities();
    let t = escape_char(c) + u;
    if c == '&' {
        assert(t.take(5) =~= "&amp;"@);
        assert(t.skip(5) =~= u);
    } else if c == '<' {
        assert(t.len() >= 5 ==> t.take(5)[1] != "&amp;"@[1]);
        assert(t.take(4) =~= "&lt;"@);
        assert(t.skip(4) =~= u);
    } else if c == '>' {
        assert(t.len() >= 5 ==> t.take(5)[1] != "&amp;"@[1]);
        assert(t.take(4)[1] != "&lt;"@[1]);
        assert(t.take(4) =~= "&gt;"@);
        assert(t.skip(4) =~= u);
    } else if c == '"' {
        assert(t.take(5)[1] != "&amp;"@[1]);
        assert(t.take(4)[1] != "&lt;"@[1]);
        assert(t.take(4)[1] != "&gt;"@[1]);
        assert(t.take(6) =~= "&quot;"@);
        assert(t.skip(6) =~= u);
    } else if c == '\'' {
        assert(t.take(5)[2] != "&amp;"@[2]);
        assert(t.take(4)[1] != "&lt;"@[1]);
        assert(t.take(4)[1] != "&gt;"@[1]);
        assert(t.take(6)[1] != "&quot;"@[1]);
        assert(t.take(6) =~= "&apos;"@);
        assert(t.skip(6) =~= u);
    } else {
        assert(t[0] == c);
        assert(t.len() >= 5 ==> t.take(5)[0] != "&amp;"@[0]);
        assert(t.len() >= 4 ==> t.take(4)[0] != "&lt;"@[0]);
        assert(t.len() >= 4 ==> t.take(4)[0] != "&gt;"@[0]);
        assert(t.len() >= 6 ==> t.take(6)[0] != "&quot;"@[0]);
        assert(t.len() >= 6 ==> t.take(6)[0] != "&apos;"@[0]);
        assert(t.skip(1) =~= u);
    }
}

/// Reading escaped text back gives the original text.
pub proof fn lemma_unescape_escaped(s: Seq<char>)
    ensures
        unescaped(escaped(s)) == s,
    decreases s.len(),
{
    if s.len() == 0 {
        assert(escaped(s) =~= Seq::<char>::empty());
    } else {
        let rest = s.drop_first();
        assert(s =~= seq![s[0]] + rest);
        lemma_escaped_concat(seq![s[0]], rest);
        let one = seq![s[0]];
        assert(one.drop_last() =~= Seq::<char>::empty());
        assert(one.last() == s[0]);
        assert(escaped(one) == escaped(one.drop_last()) + escape_char(s[0]));
        assert(escaped(one.drop_last()) =~= Seq::<char>::empty());
        assert(escaped(one) =~= escape_char(s[0]));
        lemma_unescape_one(s[0], escaped(rest));
        lemma_unescape_escaped(rest);
        assert(seq![s[0]] + rest =~= s);
    }
}

/// Text holding none of the five characters is left unchanged.
pub proof fn lemma_escaped_plain(s: Seq<char>)
    requires
        forall|i: int| 0 <= i < s.len() ==> !is_escaped_char(#[trigger] s[i]),
    ensures
        escaped(s) == s,
    decreases s.len(),
{
    if s.len() > 0 {
        assert(!is_escaped_char(s[s.len() - 1]));
        lemma_escaped_plain(s.drop_last());
        assert(escaped(s) =~= s.drop_last().push(s.last()));
        assert(s.drop_last().push(s.last()) =~= s);
    }
}

/// Every `&` in escaped text begins one of the five entities.
pub proof fn lemma_escaped_ampersands(s: Seq<char>)
    ensures
        forall|i: int| 0 <= i < escaped(s).len() && #[trigger] escaped(s)[i] == '&' ==> is_entity_at(
            escaped(s),
            i,
        ),
    decreases s.len(),
{
    reveal_entities();
    if s.len() > 0 {
        lemma_escaped_ampersands(s.drop_last());
        let prev = escaped(s.drop_last());
        let tail = escape_char(s.last());
        let t = escaped(s);
        assert(t == prev + tail);
        assert forall|i: int| 0 <= i < t.len() && #[trigger] t[i] == '&' implies is_entity_at(t, i) by {
            if i < prev.len() {
                assert(prev[i] == '&');
                assert(is_entity_at(prev, i));
                assert forall|j: int, k: int| 0 <= j <= k <= prev.len() implies t.subrange(j, k)
                    == prev.subrange(j, k) by {
                    assert(t.subrange(j, k) =~= prev.subrange(j, k));
                }
            } else {
                let c = s.last();
                assert(tail[i - prev.len()] == '&');
                assert(i == prev.len());
                assert(t.subrange(i, i + tail.len()) =~= tail);
            }
        }
    }
}

} // verus!
