//! Text in XML documents.
use vstd::prelude::*;

verus! {

/// A character as it stands in XML text.
pub open spec fn escaped_char(c: char) -> Seq<char> {
    if c == '&' {
        "&amp;"@
    } else if c == '<' {
        "&lt;"@
    } else if c == '>' {
        "&gt;"@
    } else if c == '"' {
        "&quot;"@
    } else if c == '\'' {
        "&apos;"@
    } else {
        seq![c]
    }
}

/// A text as it stands in an XML document: every character on its own.
pub open spec fn escaped(value: Seq<char>) -> Seq<char>
    decreases value.len(),
{
    if value.len() == 0 {
        seq![]
    } else {
        escaped_char(value[0]) + escaped(value.drop_first())
    }
}

/// A character that ends text or an attribute value in XML.
pub open spec fn is_markup(c: char) -> bool {
    c == '<' || c == '>' || c == '"' || c == '\''
}

proof fn reveal_entities()
    ensures
        "&amp;"@ == seq!['&', 'a', 'm', 'p', ';'],
        "&lt;"@ == seq!['&', 'l', 't', ';'],
        "&gt;"@ == seq!['&', 'g', 't', ';'],
        "&quot;"@ == seq!['&', 'q', 'u', 'o', 't', ';'],
        "&apos;"@ == seq!['&', 'a', 'p', 'o', 's', ';'],
{
    reveal_strlit("&amp;");
    reveal_strlit("&lt;");
    reveal_strlit("&gt;");
    reveal_strlit("&quot;");
    reveal_strlit("&apos;");
}

/// Escaped text cannot end the text or attribute value that it stands in.
pub proof fn law_escaped_has_no_markup(value: Seq<char>, i: int)
    requires
        0 <= i < escaped(value).len(),
    ensures
        !is_markup(escaped(value)[i]),
    decreases value.len(),
{
    reveal_entities();
    let first = escaped_char(value[0]);
    if i >= first.len() {
        law_escaped_has_no_markup(value.drop_first(), i - first.len());
    }
}

proof fn lemma_escaped_char_prefix_free(a: char, b: char)
    requires
        a != b,
    ensures
        exists|i: int|
            0 <= i < escaped_char(a).len() && i < escaped_char(b).len() && #[trigger] escaped_char(
                a,
            )[i] != escaped_char(b)[i],
{
    reveal_entities();
    let x = escaped_char(a);
    let y = escaped_char(b);
    if x[0] == y[0] {
        if x[1] == y[1] {
            assert(x[2] != y[2]);
        } else {
            assert(x[1] != y[1]);
        }
    } else {
        assert(x[0] != y[0]);
    }
}

/// No two texts look the same once they are escaped.
pub proof fn law_escaped_is_unambiguous(a: Seq<char>, b: Seq<char>)
    requires
        escaped(a) == escaped(b),
    ensures
        a == b,
    decreases a.len(),
{
    reveal_entities();
    if a.len() == 0 {
        if b.len() > 0 {
            assert(escaped(b)[0] == escaped_char(b[0])[0]);
        }
        assert(a == b);
    } else if b.len() == 0 {
        assert(escaped(a)[0] == escaped_char(a[0])[0]);
    } else {
        let x = escaped_char(a[0]);
        let y = escaped_char(b[0]);
        if a[0] != b[0] {
            lemma_escaped_char_prefix_free(a[0], b[0]);
            let i = choose|i: int|
                0 <= i < x.len() && i < y.len() && #[trigger] escaped_char(a[0])[i]
                    != escaped_char(b[0])[i];
            assert(escaped(a)[i] == x[i]);
            assert(escaped(b)[i] == y[i]);
        }
        assert(escaped(a).skip(x.len() as int) == escaped(a.drop_first()));
        assert(escaped(b).skip(y.len() as int) == escaped(b.drop_first()));
        law_escaped_is_unambiguous(a.drop_first(), b.drop_first());
        assert(seq![a[0]] + a.drop_first() == a);
        assert(seq![b[0]] + b.drop_first() == b);
    }
}

/// Text without special characters is left as it is.
pub proof fn law_plain_text_is_kept(value: Seq<char>)
    requires
        forall|i: int|
            0 <= i < value.len() ==> !is_markup(#[trigger] value[i]) && value[i] != '&',
    ensures
        escaped(value) == value,
    decreases value.len(),
{
    if value.len() > 0 {
        let rest = value.drop_first();
        assert forall|i: int| 0 <= i < rest.len() implies !is_markup(#[trigger] rest[i]) && rest[i]
            != '&' by {
            assert(rest[i] == value[i + 1]);
        }
        law_plain_text_is_kept(rest);
        assert(!is_markup(value[0]));
        assert(seq![value[0]] + rest == value);
    }
}

/// The text as it stands in an XML document.
pub fn xml_escape(value: &str) -> (r: String)
    ensures
        r@ == escaped(value@),
{
    let chars = crate::text::chars_of(value);
    let mut r = String::new();
    assert(chars@.skip(0) == value@);
    assert(r@ + escaped(value@) == escaped(value@));
    for i in 0..chars.len()
        invariant
            chars@ == value@,
            r@ + escaped(chars@.skip(i as int)) == escaped(value@),
    {
        let c = chars[i];
        let ghost before = r@;
        if c == '&' {
            r.append("&amp;");
        } else if c == '<' {
            r.append("&lt;");
        } else if c == '>' {
            r.append("&gt;");
        } else if c == '"' {
            r.append("&quot;");
        } else if c == '\'' {
            r.append("&apos;");
        } else {
            r.push(c);
        }
        proof {
            let here = chars@.skip(i as int);
            let rest = escaped(chars@.skip(i + 1));
            assert(here.drop_first() == chars@.skip(i + 1));
            assert(r@ == before + escaped_char(c));
            assert(r@ + rest == before + (escaped_char(c) + rest));
        }
    }
    assert(chars@.skip(chars@.len() as int).len() == 0);
    assert(r@ + Seq::<char>::empty() == r@);
    r
}

/// A text is escaped piece by piece.
pub proof fn law_escaped_piecewise(a: Seq<char>, b: Seq<char>)
    ensures
        escaped(a + b) == escaped(a) + escaped(b),
    decreases a.len(),
{
    if a.len() == 0 {
        assert(a + b == b);
        assert(escaped(a) + escaped(b) == escaped(b));
    } else {
        law_escaped_piecewise(a.drop_first(), b);
        assert((a + b).drop_first() == a.drop_first() + b);
        assert(escaped_char(a[0]) + (escaped(a.drop_first()) + escaped(b)) == escaped_char(a[0])
            + escaped(a.drop_first()) + escaped(b));
    }
}

/// What stands for each character: five have an entity, all others stand for
/// themselves.
pub proof fn law_entities(c: char)
    ensures
        escaped(seq!['&']) == "&amp;"@,
        escaped(seq!['<']) == "&lt;"@,
        escaped(seq!['>']) == "&gt;"@,
        escaped(seq!['"']) == "&quot;"@,
        escaped(seq!['\'']) == "&apos;"@,
        c != '&' && c != '<' && c != '>' && c != '"' && c != '\'' ==> escaped(seq![c]) == seq![c],
{
    lemma_escaped_single('&');
    lemma_escaped_single('<');
    lemma_escaped_single('>');
    lemma_escaped_single('"');
    lemma_escaped_single('\'');
    lemma_escaped_single(c);
}

proof fn lemma_escaped_single(c: char)
    ensures
        escaped(seq![c]) == escaped_char(c),
{
    reveal_with_fuel(escaped, 2);
    assert(seq![c].drop_first() == Seq::<char>::empty());
    assert(escaped_char(c) + Seq::<char>::empty() == escaped_char(c));
}

} // verus!
