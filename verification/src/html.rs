use vstd::prelude::*;
use crate::expression::{Expression, SpecExpression, SpecPairs, exprs_view, lemma_exprs_view, lemma_pairs_view, pairs_view};
use crate::printer::{push_all, push_shown, show};

verus! {

/// Elements that have no content and no closing tag.
pub open spec fn void_element(tag: Seq<char>) -> bool {
    tag == "area"@ || tag == "base"@ || tag == "br"@ || tag == "col"@ || tag == "embed"@
        || tag == "hr"@ || tag == "img"@ || tag == "input"@ || tag == "link"@ || tag == "meta"@
        || tag == "source"@ || tag == "track"@ || tag == "wbr"@
}

/// A name written in a document: a keyword without its colon, a string as it is, any
/// other value in its written form.
pub open spec fn name_of(k: SpecExpression) -> Seq<char> {
    match k {
        SpecExpression::Keyword(s) => if s.len() > 0 { s.skip(1) } else { s },
        SpecExpression::String(s) => s,
        other => show(other),
    }
}

/// The attributes of an element: ` name="value"` for each entry, in the map's order.
pub open spec fn attributes(ps: SpecPairs) -> Seq<char>
    decreases ps.len(),
{
    if ps.len() == 0 {
        seq![]
    } else {
        attributes(ps.drop_last()) + seq![' '] + name_of(ps.last().0) + "=\""@ + name_of(ps.last().1) + seq!['"']
    }
}

/// The declarations of a style rule: `property: value; ` for each entry.
pub open spec fn declarations(ps: SpecPairs) -> Seq<char>
    decreases ps.len(),
{
    if ps.len() == 0 {
        seq![]
    } else {
        declarations(ps.drop_last()) + name_of(ps.last().0) + ": "@ + name_of(ps.last().1) + "; "@
    }
}

/// One style rule: `selector { declarations }`.
pub open spec fn style_rule(selector: SpecExpression, body: SpecExpression) -> Seq<char> {
    name_of(selector) + " { "@ + match body {
        SpecExpression::Mapping(ps) => declarations(ps),
        _ => seq![],
    } + seq!['}']
}

/// A style sheet: its rules separated by spaces.
pub open spec fn style_sheet(ps: SpecPairs) -> Seq<char>
    decreases ps.len(),
{
    if ps.len() == 0 {
        seq![]
    } else if ps.len() == 1 {
        style_rule(ps[0].0, ps[0].1)
    } else {
        style_sheet(ps.drop_last()) + seq![' '] + style_rule(ps.last().0, ps.last().1)
    }
}

/// The attribute map of an element, where its second element is a map.
pub open spec fn element_attributes(xs: Seq<SpecExpression>) -> SpecPairs {
    if xs.len() > 1 {
        match xs[1] {
            SpecExpression::Mapping(ps) => ps,
            _ => seq![],
        }
    } else {
        seq![]
    }
}

/// Where the children of an element start: after its tag, and its attributes if any.
pub open spec fn children_start(xs: Seq<SpecExpression>) -> int {
    if xs.len() > 1 && xs[1] is Mapping { 2 } else { 1 }
}

/// The HTML an expression stands for: `[:tag {attributes} children...]` is an element
/// (a `style` element with a map is a style sheet, a void element has no closing tag),
/// an array of other things is its items one after another, a string is text, and any
/// other value is written as it prints.
pub open spec fn html(e: SpecExpression) -> Seq<char>
    decreases e, 0nat,
{
    match e {
        SpecExpression::Array(xs) => if xs.len() > 0 && xs[0] is Keyword {
            let tag = name_of(xs[0]);
            let attrs = element_attributes(xs);
            if tag == "style"@ && xs.len() > 1 && xs[1] is Mapping {
                "<style>"@ + style_sheet(attrs) + "</style>"@
            } else if void_element(tag) {
                seq!['<'] + tag + attributes(attrs) + " />"@
            } else {
                seq!['<'] + tag + attributes(attrs) + seq!['>']
                    + html_all(xs.subrange(children_start(xs), xs.len() as int)) + "</"@ + tag + seq!['>']
            }
        } else {
            html_all(xs)
        },
        SpecExpression::String(s) => s,
        other => show(other),
    }
}

/// The HTML of several expressions, one after another.
pub open spec fn html_all(xs: Seq<SpecExpression>) -> Seq<char>
    decreases xs, 1nat,
{
    if xs.len() == 0 {
        seq![]
    } else {
        html_all(xs.drop_last()) + html(xs.last())
    }
}

fn push_name(s: &mut String, k: &Expression)
    ensures
        final(s)@ == old(s)@ + name_of(k@),
{
    match k {
        Expression::Keyword(x) => {
            let chars = crate::strings::chars_of(x.as_str());
            if chars.len() == 0 {
                return;
            }
            let mut i: usize = 1;
            while i < chars.len()
                invariant
                    1 <= i <= chars.len(),
                    chars@ == x@,
                    s@ == old(s)@ + chars@.subrange(1, i as int),
                decreases chars.len() - i,
            {
                s.push(chars[i]);
                assert(chars@.subrange(1, i + 1) =~= chars@.subrange(1, i as int).push(chars@[i as int]));
                i = i + 1;
            }
            assert(chars@.subrange(1, chars.len() as int) =~= chars@.skip(1));
        },
        Expression::String(x) => push_all(s, x.as_str()),
        _ => push_shown(s, k),
    }
}

fn push_attributes(s: &mut String, ps: &Vec<(Expression, Expression)>)
    ensures
        final(s)@ == old(s)@ + attributes(pairs_view(ps@)),
{
    let ghost v = pairs_view(ps@);
    proof {
        lemma_pairs_view(ps@);
        assert(v.take(0) =~= Seq::<(SpecExpression, SpecExpression)>::empty());
    }
    let mut i: usize = 0;
    while i < ps.len()
        invariant
            i <= ps.len(),
            v == pairs_view(ps@),
            v.len() == ps.len(),
            forall|j: int| 0 <= j < ps.len() ==> #[trigger] v[j] == (ps@[j].0@, ps@[j].1@),
            s@ == old(s)@ + attributes(v.take(i as int)),
        decreases ps.len() - i,
    {
        let ghost before = s@;
        s.push(' ');
        push_name(s, &ps[i].0);
        push_all(s, "=\"");
        push_name(s, &ps[i].1);
        s.push('"');
        proof {
            let t = v.take(i + 1);
            assert(t.drop_last() =~= v.take(i as int));
            assert(t.last() == (ps@[i as int].0@, ps@[i as int].1@));
            assert(s@ =~= old(s)@ + attributes(t));
        }
        i = i + 1;
    }
    assert(v.take(ps.len() as int) =~= v);
}

fn push_declarations(s: &mut String, ps: &Vec<(Expression, Expression)>)
    ensures
        final(s)@ == old(s)@ + declarations(pairs_view(ps@)),
{
    let ghost v = pairs_view(ps@);
    proof {
        lemma_pairs_view(ps@);
        assert(v.take(0) =~= Seq::<(SpecExpression, SpecExpression)>::empty());
    }
    let mut i: usize = 0;
    while i < ps.len()
        invariant
            i <= ps.len(),
            v == pairs_view(ps@),
            v.len() == ps.len(),
            forall|j: int| 0 <= j < ps.len() ==> #[trigger] v[j] == (ps@[j].0@, ps@[j].1@),
            s@ == old(s)@ + declarations(v.take(i as int)),
        decreases ps.len() - i,
    {
        push_name(s, &ps[i].0);
        push_all(s, ": ");
        push_name(s, &ps[i].1);
        push_all(s, "; ");
        proof {
            let t = v.take(i + 1);
            assert(t.drop_last() =~= v.take(i as int));
            assert(t.last() == (ps@[i as int].0@, ps@[i as int].1@));
            assert(s@ =~= old(s)@ + declarations(t));
        }
        i = i + 1;
    }
    assert(v.take(ps.len() as int) =~= v);
}

fn push_rule(s: &mut String, selector: &Expression, body: &Expression)
    ensures
        final(s)@ == old(s)@ + style_rule(selector@, body@),
{
    push_name(s, selector);
    push_all(s, " { ");
    match body {
        Expression::Mapping(m) => push_declarations(s, &m.entries),
        _ => {},
    }
    s.push('}');
    assert(s@ =~= old(s)@ + style_rule(selector@, body@));
}

fn push_style_sheet(s: &mut String, ps: &Vec<(Expression, Expression)>)
    ensures
        final(s)@ == old(s)@ + style_sheet(pairs_view(ps@)),
{
    let ghost v = pairs_view(ps@);
    proof {
        lemma_pairs_view(ps@);
        assert(v.take(0) =~= Seq::<(SpecExpression, SpecExpression)>::empty());
    }
    let mut i: usize = 0;
    while i < ps.len()
        invariant
            i <= ps.len(),
            v == pairs_view(ps@),
            v.len() == ps.len(),
            forall|j: int| 0 <= j < ps.len() ==> #[trigger] v[j] == (ps@[j].0@, ps@[j].1@),
            s@ == old(s)@ + style_sheet(v.take(i as int)),
        decreases ps.len() - i,
    {
        if i > 0 {
            s.push(' ');
        }
        push_rule(s, &ps[i].0, &ps[i].1);
        proof {
            let t = v.take(i + 1);
            assert(t.drop_last() =~= v.take(i as int));
            assert(t.last() == (ps@[i as int].0@, ps@[i as int].1@));
            if i == 0 {
                assert(t[0] == t.last());
            }
            assert(s@ =~= old(s)@ + style_sheet(t));
        }
        i = i + 1;
    }
    assert(v.take(ps.len() as int) =~= v);
}

fn push_html_all(s: &mut String, xs: &Vec<Expression>, from: usize)
    requires
        from <= xs.len(),
    ensures
        final(s)@ == old(s)@ + html_all(exprs_view(xs@).subrange(from as int, xs.len() as int)),
    decreases xs@, 1nat,
{
    let ghost v = exprs_view(xs@);
    proof {
        lemma_exprs_view(xs@);
        assert(v.subrange(from as int, from as int) =~= Seq::<SpecExpression>::empty());
    }
    let mut i: usize = from;
    while i < xs.len()
        invariant
            from <= i <= xs.len(),
            v == exprs_view(xs@),
            v.len() == xs.len(),
            forall|j: int| 0 <= j < xs.len() ==> #[trigger] v[j] == xs@[j]@,
            s@ == old(s)@ + html_all(v.subrange(from as int, i as int)),
        decreases xs.len() - i,
    {
        push_html(s, &xs[i]);
        proof {
            let t = v.subrange(from as int, i + 1);
            assert(t.drop_last() =~= v.subrange(from as int, i as int));
            assert(t.last() == xs@[i as int]@);
            assert(s@ =~= old(s)@ + html_all(t));
        }
        i = i + 1;
    }
}

/// Writes the HTML of `e` at the end of `s`.
pub fn push_html(s: &mut String, e: &Expression)
    ensures
        final(s)@ == old(s)@ + html(e@),
    decreases e, 0nat,
{
    match e {
        Expression::Array(xs) => {
            let ghost v = exprs_view(xs@);
            proof {
                lemma_exprs_view(xs@);
                assert(v.subrange(0, v.len() as int) =~= v);
            }
            let is_element = xs.len() > 0 && match &xs[0] {
                Expression::Keyword(_) => true,
                _ => false,
            };
            if !is_element {
                push_html_all(s, xs, 0);
                return;
            }
            let mut tag = String::new();
            push_name(&mut tag, &xs[0]);
            assert(tag@ =~= name_of(v[0]));
            let empty: Vec<(Expression, Expression)> = Vec::new();
            proof {
                lemma_pairs_view(empty@);
                assert(pairs_view(empty@) =~= Seq::<(SpecExpression, SpecExpression)>::empty());
            }
            let (attrs, start) = if xs.len() > 1 {
                match &xs[1] {
                    Expression::Mapping(m) => (&m.entries, 2usize),
                    _ => (&empty, 1usize),
                }
            } else {
                (&empty, 1usize)
            };
            assert(pairs_view(attrs@) == element_attributes(v));
            assert(start as int == children_start(v));
            let is_style = start == 2 && crate::equality::string_equal(&tag, &"style".to_string());
            if is_style {
                push_all(s, "<style>");
                push_style_sheet(s, attrs);
                push_all(s, "</style>");
                assert(s@ =~= old(s)@ + html(e@));
            } else if is_void(&tag) {
                s.push('<');
                push_all(s, tag.as_str());
                push_attributes(s, attrs);
                push_all(s, " />");
                assert(s@ =~= old(s)@ + html(e@));
            } else {
                s.push('<');
                push_all(s, tag.as_str());
                push_attributes(s, attrs);
                s.push('>');
                push_html_all(s, xs, start);
                push_all(s, "</");
                push_all(s, tag.as_str());
                s.push('>');
                assert(s@ =~= old(s)@ + html(e@));
            }
        },
        Expression::String(x) => push_all(s, x.as_str()),
        _ => push_shown(s, e),
    }
}

fn is_void(tag: &String) -> (r: bool)
    ensures
        r == void_element(tag@),
{
    crate::equality::string_equal(tag, &"area".to_string()) || crate::equality::string_equal(tag, &"base".to_string())
        || crate::equality::string_equal(tag, &"br".to_string()) || crate::equality::string_equal(tag, &"col".to_string())
        || crate::equality::string_equal(tag, &"embed".to_string()) || crate::equality::string_equal(tag, &"hr".to_string())
        || crate::equality::string_equal(tag, &"img".to_string()) || crate::equality::string_equal(tag, &"input".to_string())
        || crate::equality::string_equal(tag, &"link".to_string()) || crate::equality::string_equal(tag, &"meta".to_string())
        || crate::equality::string_equal(tag, &"source".to_string()) || crate::equality::string_equal(tag, &"track".to_string())
        || crate::equality::string_equal(tag, &"wbr".to_string())
}

/// The HTML document `e` stands for.
pub fn to_html(e: &Expression) -> (r: String)
    ensures
        r@ == html(e@),
{
    let mut s = String::new();
    push_html(&mut s, e);
    assert(s@ =~= html(e@));
    s
}

/// A style rule writes every declaration of its map: adding an entry to the map adds its
/// `property: value; ` after the declarations of the entries before it, and an empty map
/// declares nothing.
pub proof fn law_declarations_push(ps: SpecPairs, x: (SpecExpression, SpecExpression))
    ensures
        declarations(Seq::<(SpecExpression, SpecExpression)>::empty()) == Seq::<char>::empty(),
        declarations(ps.push(x)) == declarations(ps) + name_of(x.0) + ": "@ + name_of(x.1) + "; "@,
        declarations(ps.push(x)).len() > declarations(ps).len(),
{
    assert(ps.push(x).drop_last() =~= ps);
    assert(ps.push(x).last() == x);
    reveal_strlit(": ");
    reveal_strlit("; ");
}

/// The declarations of two maps' entries, one map after the other, are those of the first
/// map followed by those of the second.
pub proof fn law_declarations_concat(ps: SpecPairs, qs: SpecPairs)
    ensures
        declarations(ps + qs) == declarations(ps) + declarations(qs),
    decreases qs.len(),
{
    if qs.len() == 0 {
        assert(ps + qs =~= ps);
        assert(declarations(ps) + declarations(qs) =~= declarations(ps));
    } else {
        law_declarations_concat(ps, qs.drop_last());
        assert((ps + qs).drop_last() =~= ps + qs.drop_last());
        assert((ps + qs).last() == qs.last());
        assert(declarations(ps + qs) =~= declarations(ps) + declarations(qs));
    }
}

/// An element writes every attribute of its map: adding an entry adds ` name="value"`
/// after the attributes of the entries before it, and an empty map writes nothing.
pub proof fn law_attributes_push(ps: SpecPairs, x: (SpecExpression, SpecExpression))
    ensures
        attributes(Seq::<(SpecExpression, SpecExpression)>::empty()) == Seq::<char>::empty(),
        attributes(ps.push(x)) == attributes(ps) + seq![' '] + name_of(x.0) + "=\""@ + name_of(x.1) + seq!['"'],
{
    assert(ps.push(x).drop_last() =~= ps);
    assert(ps.push(x).last() == x);
}

/// The attributes of two maps' entries, one map after the other, are those of the first map
/// followed by those of the second.
pub proof fn law_attributes_concat(ps: SpecPairs, qs: SpecPairs)
    ensures
        attributes(ps + qs) == attributes(ps) + attributes(qs),
    decreases qs.len(),
{
    if qs.len() == 0 {
        assert(ps + qs =~= ps);
        assert(attributes(ps) + attributes(qs) =~= attributes(ps));
    } else {
        law_attributes_concat(ps, qs.drop_last());
        assert((ps + qs).drop_last() =~= ps + qs.drop_last());
        assert((ps + qs).last() == qs.last());
        assert(attributes(ps + qs) =~= attributes(ps) + attributes(qs));
    }
}

/// A style sheet writes every rule of its map, a space between one rule and the next:
/// adding an entry to a map with entries adds ` selector { declarations }` after the rules
/// before it.
pub proof fn law_style_sheet_push(ps: SpecPairs, x: (SpecExpression, SpecExpression))
    ensures
        style_sheet(seq![x]) == style_rule(x.0, x.1),
        ps.len() > 0 ==> style_sheet(ps.push(x)) == style_sheet(ps) + seq![' '] + style_rule(x.0, x.1),
{
    assert(ps.push(x).drop_last() =~= ps);
    assert(ps.push(x).last() == x);
    assert(seq![x][0] == x);
}

/// Several expressions written one after another: the HTML of two runs of them is that of
/// the first run followed by that of the second.
pub proof fn law_html_all_concat(xs: Seq<SpecExpression>, ys: Seq<SpecExpression>)
    ensures
        html_all(xs + ys) == html_all(xs) + html_all(ys),
    decreases ys.len(),
{
    if ys.len() == 0 {
        assert(xs + ys =~= xs);
        assert(html_all(xs) + html_all(ys) =~= html_all(xs));
    } else {
        law_html_all_concat(xs, ys.drop_last());
        assert((xs + ys).drop_last() =~= xs + ys.drop_last());
        assert((xs + ys).last() == ys.last());
        assert(html_all(xs + ys) =~= html_all(xs) + html_all(ys));
    }
}

/// A `style` element whose second item is a map writes that map as a style sheet between
/// `<style>` and `</style>`, whatever follows it.
pub proof fn law_style_element(ps: SpecPairs, rest: Seq<SpecExpression>)
    ensures
        html(SpecExpression::Array(seq![SpecExpression::Keyword(":style"@), SpecExpression::Mapping(ps)] + rest))
            == "<style>"@ + style_sheet(ps) + "</style>"@,
{
    let xs = seq![SpecExpression::Keyword(":style"@), SpecExpression::Mapping(ps)] + rest;
    reveal_strlit(":style");
    reveal_strlit("style");
    assert(xs[0] == SpecExpression::Keyword(":style"@));
    assert(xs[1] == SpecExpression::Mapping(ps));
    assert(":style"@.skip(1) =~= "style"@);
    assert(name_of(xs[0]) == "style"@);
    assert(element_attributes(xs) == ps);
}

} // verus!
