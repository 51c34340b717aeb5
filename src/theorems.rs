//! Laws of rendering, proved over the specifications that the parser and
//! the renderer meet.

use vstd::prelude::*;
use crate::item::{date_of, utc_date, Item, TimeStamp};
use crate::render::{
    contributes, outcome, render_spec, resolve, resolve_part, resolve_parts, segment,
    signed_decimal,
};
use crate::template::{
    is_brace, parts_of, qualifier_list, template_of, variable_of, text_len, PartView, QualifierView,
    VariableView,
};
use crate::text::{decimal, find, lemma_find, lemma_find_least, split};
use crate::vocabulary::{specifier_of, token_of, Specifier, Token};

verus! {

pub open spec fn has_no_braces(s: Seq<char>) -> bool {
    forall|i: int| 0 <= i < s.len() ==> !is_brace(#[trigger] s[i])
}

/// The pieces that are not empty, in order.
pub open spec fn non_empty(ps: Seq<Seq<char>>) -> Seq<Seq<char>>
    decreases ps.len(),
{
    if ps.len() == 0 {
        Seq::empty()
    } else if ps.last().len() > 0 {
        non_empty(ps.drop_last()).push(ps.last())
    } else {
        non_empty(ps.drop_last())
    }
}

proof fn lemma_split_pieces_no_braces(s: Seq<char>)
    requires
        has_no_braces(s),
    ensures
        forall|i: int| 0 <= i < split(s, '/').len() ==> has_no_braces(#[trigger] split(s, '/')[i]),
    decreases s.len(),
{
    let k = find(s, '/') as int;
    lemma_find(s, '/');
    if k < s.len() {
        let rest = s.subrange(k + 1, s.len() as int);
        assert(has_no_braces(rest)) by {
            assert forall|i: int| 0 <= i < rest.len() implies !is_brace(#[trigger] rest[i]) by {
                assert(rest[i] == s[k + 1 + i]);
            }
        }
        lemma_split_pieces_no_braces(rest);
        let head = s.subrange(0, k);
        assert(has_no_braces(head)) by {
            assert forall|i: int| 0 <= i < head.len() implies !is_brace(#[trigger] head[i]) by {
                assert(head[i] == s[i]);
            }
        }
        assert forall|i: int| 0 <= i < split(s, '/').len() implies has_no_braces(
            #[trigger] split(s, '/')[i],
        ) by {
            if i > 0 {
                assert(split(s, '/')[i] == split(rest, '/')[i - 1]);
            }
        }
    }
}

proof fn lemma_text_len_all(p: Seq<char>)
    requires
        has_no_braces(p),
    ensures
        text_len(p) == p.len(),
    decreases p.len(),
{
    if p.len() > 0 {
        let d = p.drop_first();
        assert forall|i: int| 0 <= i < d.len() implies !is_brace(#[trigger] d[i]) by {
            assert(d[i] == p[i + 1]);
        }
        lemma_text_len_all(d);
    }
}

proof fn lemma_literal_parts(p: Seq<char>)
    requires
        has_no_braces(p),
    ensures
        parts_of(p) == Some(
            if p.len() == 0 {
                Seq::<PartView>::empty()
            } else {
                seq![PartView::Text(p)]
            },
        ),
{
    if p.len() > 0 {
        lemma_text_len_all(p);
        assert(!is_brace(p[0]));
        assert(parts_of(Seq::<char>::empty()) == Some(Seq::<PartView>::empty()));
        assert(p.subrange(p.len() as int, p.len() as int) =~= Seq::<char>::empty());
        assert(p.subrange(0, p.len() as int) =~= p);
        assert(seq![PartView::Text(p)] + Seq::<PartView>::empty() =~= seq![PartView::Text(p)]);
    }
}

proof fn lemma_single_part(p: PartView, item: Item)
    ensures
        resolve_parts(seq![p], item) == match resolve_part(p, item) {
            Err(e) => Err(e),
            Ok(o) => Ok(seq![o]),
        },
{
    let c = seq![p];
    assert(c.drop_last() =~= Seq::<PartView>::empty());
    assert(resolve_parts(Seq::<PartView>::empty(), item) == Ok::<
        Seq<Option<Seq<char>>>,
        crate::item::ItemError,
    >(Seq::empty()));
    assert(c.last() == p);
    match resolve_part(p, item) {
        Ok(o) => {
            assert(Seq::<Option<Seq<char>>>::empty().push(o) =~= seq![o]);
        },
        Err(e) => {},
    }
}

proof fn lemma_joined_single(x: Seq<char>)
    ensures
        crate::render::joined(seq![Some(x)]) == x,
        segment(seq![Some(x)]) == if x.len() > 0 {
            Some(x)
        } else {
            None::<Seq<char>>
        },
{
    let os = seq![Some(x)];
    assert(os.drop_last() =~= Seq::<Option<Seq<char>>>::empty());
    assert(crate::render::joined(Seq::<Option<Seq<char>>>::empty()) == Seq::<char>::empty());
    assert(os.last() == Some(x));
    assert(Seq::<char>::empty() + x =~= x);
    assert(os[0] is Some);
}

proof fn lemma_literal_render(ps: Seq<Seq<char>>, item: Item)
    requires
        forall|i: int| 0 <= i < ps.len() ==> has_no_braces(#[trigger] ps[i]),
    ensures
        render_spec(ps.map_values(|c: Seq<char>| parts_of(c)->0), item) == Ok::<
            Seq<Seq<char>>,
            crate::item::ItemError,
        >(non_empty(ps)),
    decreases ps.len(),
{
    let t = ps.map_values(|c: Seq<char>| parts_of(c)->0);
    if ps.len() > 0 {
        let d = ps.drop_last();
        assert(t.drop_last() =~= d.map_values(|c: Seq<char>| parts_of(c)->0));
        lemma_literal_render(d, item);
        let p = ps.last();
        assert(has_no_braces(ps[ps.len() - 1]));
        lemma_literal_parts(p);
        assert(t.last() == parts_of(p)->0);
        if p.len() > 0 {
            lemma_single_part(PartView::Text(p), item);
            lemma_joined_single(p);
        } else {
            assert(crate::render::joined(Seq::<Option<Seq<char>>>::empty()).len() == 0);
        }
    }
}

/// A template without variables renders, for any item, to its own text cut
/// at every `/`, with the empty pieces left out.
pub proof fn literal_template_renders_its_text(s: Seq<char>, item: Item)
    requires
        has_no_braces(s),
    ensures
        outcome(s, item) == Ok::<Seq<Seq<char>>, crate::error::AppError>(non_empty(split(s, '/'))),
{
    let cs = split(s, '/');
    lemma_split_pieces_no_braces(s);
    assert forall|i: int| 0 <= i < cs.len() implies (#[trigger] parts_of(cs[i])) is Some by {
        lemma_literal_parts(cs[i]);
    }
    assert(template_of(s) == Some(cs.map_values(|c: Seq<char>| parts_of(c)->0)));
    lemma_literal_render(cs, item);
}

proof fn lemma_decimal_not_empty(n: nat)
    ensures
        decimal(n).len() > 0,
{
}

/// The template made of one date variable with the `created` specifier
/// renders, for an item whose creation time is known, to the year, month or
/// day of that time as unpadded decimal text.
pub proof fn created_date_renders_alone(token: Token, item: Item, ms: u128)
    requires
        token == Token::Year || token == Token::Month || token == Token::Day,
        item.created == TimeStamp::Millis(ms),
        ms <= i64::MAX,
        utc_date(ms as i64) is Some,
    ensures
        ({
            let (y, m, d) = utc_date(ms as i64)->0;
            let v = VariableView {
                token,
                qualifiers: seq![QualifierView::Specifier(Specifier::Created)],
            };
            render_spec(seq![seq![PartView::Variable(v)]], item) == Ok::<
                Seq<Seq<char>>,
                crate::item::ItemError,
            >(
                seq![
                    if token == Token::Year {
                        signed_decimal(y as int)
                    } else if token == Token::Month {
                        decimal(m as nat)
                    } else {
                        decimal(d as nat)
                    },
                ],
            )
        }),
{
    let (y, m, d) = utc_date(ms as i64)->0;
    let v = VariableView {
        token,
        qualifiers: seq![QualifierView::Specifier(Specifier::Created)],
    };
    let qs = v.qualifiers;
    assert(qs.drop_last() =~= Seq::<QualifierView>::empty());
    assert(date_of(item, Specifier::Created) == Ok::<(i32, u32, u32), crate::item::ItemError>(
        (y, m, d),
    ));
    let text = if token == Token::Year {
        signed_decimal(y as int)
    } else if token == Token::Month {
        decimal(m as nat)
    } else {
        decimal(d as nat)
    };
    lemma_decimal_not_empty(m as nat);
    lemma_decimal_not_empty(d as nat);
    if y < 0 {
        lemma_decimal_not_empty((-y) as nat);
    } else {
        lemma_decimal_not_empty(y as nat);
    }
    assert(resolve(v, item) == Ok::<Option<Seq<char>>, crate::item::ItemError>(Some(text)));
    let c = seq![PartView::Variable(v)];
    lemma_single_part(PartView::Variable(v), item);
    lemma_joined_single(text);
    assert(text.len() > 0);
    let t = seq![c];
    assert(render_spec(Seq::<Seq<PartView>>::empty(), item) == Ok::<
        Seq<Seq<char>>,
        crate::item::ItemError,
    >(Seq::empty()));
    assert(t.last() == c);
    assert(t.drop_last() =~= Seq::<Seq<PartView>>::empty());
    assert(Seq::<Seq<char>>::empty().push(text) =~= seq![text]);
}

proof fn lemma_resolve_parts_index(c: Seq<PartView>, item: Item, k: int)
    requires
        0 <= k < c.len(),
        resolve_parts(c, item) is Ok,
    ensures
        resolve_parts(c, item)->Ok_0.len() == c.len(),
        resolve_part(c[k], item) == Ok::<Option<Seq<char>>, crate::item::ItemError>(
            resolve_parts(c, item)->Ok_0[k],
        ),
    decreases c.len(),
{
    let d = c.drop_last();
    if d.len() > 0 {
        lemma_resolve_parts_len(d, item);
    }
    if k < c.len() - 1 {
        lemma_resolve_parts_index(d, item, k);
    } else {
        lemma_resolve_parts_len(d, item);
    }
}

proof fn lemma_resolve_parts_len(c: Seq<PartView>, item: Item)
    requires
        resolve_parts(c, item) is Ok,
    ensures
        resolve_parts(c, item)->Ok_0.len() == c.len(),
    decreases c.len(),
{
    if c.len() > 0 {
        lemma_resolve_parts_len(c.drop_last(), item);
    }
}

proof fn lemma_resolve_parts_ok(c: Seq<PartView>, item: Item)
    requires
        forall|j: int| 0 <= j < c.len() ==> (#[trigger] resolve_part(c[j], item)) is Ok,
    ensures
        resolve_parts(c, item) is Ok,
    decreases c.len(),
{
    if c.len() > 0 {
        let d = c.drop_last();
        assert forall|j: int| 0 <= j < d.len() implies (#[trigger] resolve_part(d[j], item)) is Ok by {
            assert(d[j] == c[j]);
        }
        lemma_resolve_parts_ok(d, item);
        assert(resolve_part(c[c.len() - 1], item) is Ok);
    }
}

proof fn lemma_dropped_component(
    t: Seq<Seq<PartView>>,
    c: Seq<PartView>,
    u: Seq<Seq<PartView>>,
    item: Item,
)
    requires
        resolve_parts(c, item) is Ok,
        segment(resolve_parts(c, item)->Ok_0) is None,
    ensures
        render_spec(t.push(c) + u, item) == render_spec(t + u, item),
    decreases u.len(),
{
    if u.len() == 0 {
        assert(t.push(c) + u =~= t.push(c));
        assert(t + u =~= t);
        assert(t.push(c).drop_last() =~= t);
    } else {
        lemma_dropped_component(t, c, u.drop_last(), item);
        assert((t.push(c) + u).drop_last() =~= t.push(c) + u.drop_last());
        assert((t + u).drop_last() =~= t + u.drop_last());
    }
}

/// All or nothing: a component one of whose parts contributes nothing, or
/// only empty text, is left out of the path, where none of its parts fails;
/// the components around it render as they would without it.
pub proof fn partial_component_is_left_out(
    t: Seq<Seq<PartView>>,
    c: Seq<PartView>,
    u: Seq<Seq<PartView>>,
    item: Item,
    k: int,
)
    requires
        0 <= k < c.len(),
        forall|j: int| 0 <= j < c.len() ==> (#[trigger] resolve_part(c[j], item)) is Ok,
        !contributes(resolve_part(c[k], item)->Ok_0),
    ensures
        render_spec(t.push(c) + u, item) == render_spec(t + u, item),
{
    lemma_resolve_parts_ok(c, item);
    lemma_resolve_parts_index(c, item, k);
    lemma_dropped_component(t, c, u, item);
}

/// An unknown token contributes nothing and fails nothing: the component
/// that holds it is left out, where its other parts do not fail, and the
/// rest of the path renders as it would without it.
pub proof fn unknown_token_is_left_out(
    t: Seq<Seq<PartView>>,
    c: Seq<PartView>,
    u: Seq<Seq<PartView>>,
    item: Item,
    k: int,
)
    requires
        0 <= k < c.len(),
        c[k] matches PartView::Variable(v) && v.token == Token::Unknown,
        forall|j: int| 0 <= j < c.len() && j != k ==> (#[trigger] resolve_part(c[j], item)) is Ok,
    ensures
        resolve_part(c[k], item) == Ok::<Option<Seq<char>>, crate::item::ItemError>(None),
        render_spec(t.push(c) + u, item) == render_spec(t + u, item),
{
    partial_component_is_left_out(t, c, u, item, k);
}

/// A name that can stand as a field of a variable.
pub open spec fn is_plain_word(w: Seq<char>) -> bool {
    &&& w.len() > 0
    &&& forall|i: int|
        0 <= i < w.len() ==> {
            let c = #[trigger] w[i];
            c != '{' && c != '}' && c != '/' && c != ':'
        }
}

/// The template text `{name:created}`.
pub open spec fn created_template(name: Seq<char>) -> Seq<char> {
    seq!['{'] + name + seq![':'] + "created"@ + seq!['}']
}

proof fn lemma_created_template_parses(w: Seq<char>)
    requires
        is_plain_word(w),
    ensures
        template_of(created_template(w)) == Some(
            seq![
                seq![
                    PartView::Variable(
                        VariableView {
                            token: token_of(w),
                            qualifiers: seq![QualifierView::Specifier(Specifier::Created)],
                        },
                    ),
                ],
            ],
        ),
{
    reveal_strlit("created");
    let cr = "created"@;
    assert(cr.len() == 7);
    let n = w.len() as int;
    let s = created_template(w);
    assert(s.len() == n + 10);
    assert(s[0] == '{');
    assert(forall|i: int| 0 <= i < n ==> s[1 + i] == #[trigger] w[i]);
    assert(s[n + 1] == ':');
    assert(forall|i: int| 0 <= i < 7 ==> s[n + 2 + i] == #[trigger] cr[i]);
    assert(s[n + 9] == '}');
    assert forall|i: int| 0 <= i < s.len() implies #[trigger] s[i] != '/' by {
        if 1 <= i < n + 1 {
            assert(s[i] == w[i - 1]);
        } else if n + 2 <= i < n + 9 {
            assert(s[i] == cr[i - n - 2]);
        }
    }
    lemma_find_least(s, '/', s.len() as int);
    assert(split(s, '/') == seq![s]);
    assert forall|i: int| 0 <= i < n + 9 implies #[trigger] s[i] != '}' by {
        if 1 <= i < n + 1 {
            assert(s[i] == w[i - 1]);
        } else if n + 2 <= i < n + 9 {
            assert(s[i] == cr[i - n - 2]);
        }
    }
    lemma_find_least(s, '}', n + 9);
    let body = s.subrange(1, n + 9);
    assert(body =~= w + seq![':'] + cr);
    assert forall|i: int| 0 <= i < body.len() implies #[trigger] body[i] != '{' by {
        if i < n {
            assert(body[i] == w[i]);
        } else if n + 1 <= i {
            assert(body[i] == cr[i - n - 1]);
        }
    }
    lemma_find_least(body, '{', body.len() as int);
    assert forall|i: int| 0 <= i < n implies #[trigger] body[i] != ':' by {
        assert(body[i] == w[i]);
    }
    lemma_find_least(body, ':', n);
    let f0 = body.subrange(0, n);
    let f1 = body.subrange(n + 1, body.len() as int);
    assert(f0 =~= w);
    assert(f1 =~= cr);
    assert forall|i: int| 0 <= i < f1.len() implies #[trigger] f1[i] != ':' by {
        assert(f1[i] == cr[i]);
    }
    lemma_find_least(f1, ':', f1.len() as int);
    assert(split(f1, ':') == seq![f1]);
    let fs = split(body, ':');
    assert(fs =~= seq![f0, f1]);
    assert(fs.drop_first() =~= seq![f1]);
    assert(seq![f1].drop_first() =~= Seq::<Seq<char>>::empty());
    assert(specifier_of(f1) == Specifier::Created);
    assert(qualifier_list(Seq::<Seq<char>>::empty()) == Some(Seq::<QualifierView>::empty()));
    let q = QualifierView::Specifier(Specifier::Created);
    assert(seq![q] + Seq::<QualifierView>::empty() =~= seq![q]);
    assert(qualifier_list(seq![f1]) == Some(seq![q]));
    assert forall|i: int| 0 <= i < fs.len() implies (#[trigger] fs[i]).len() != 0 by {
        assert(fs[0] == f0 && fs[1] == f1);
    }
    let v = VariableView { token: token_of(w), qualifiers: seq![q] };
    assert(variable_of(body) == Some(v));
    assert(s.subrange(n + 10, n + 10) =~= Seq::<char>::empty());
    assert(parts_of(Seq::<char>::empty()) == Some(Seq::<PartView>::empty()));
    assert(seq![PartView::Variable(v)] + Seq::<PartView>::empty() =~= seq![PartView::Variable(v)]);
    assert(parts_of(s) == Some(seq![PartView::Variable(v)]));
    let cs = split(s, '/');
    assert(cs[0] == s);
    assert(cs.map_values(|c: Seq<char>| parts_of(c)->0) =~= seq![seq![PartView::Variable(v)]]);
}

/// The template `{year:created}`, `{month:created}` or `{day:created}`
/// renders, for an item whose creation time is known, to the year, month or
/// day of that time as unpadded decimal text.
pub proof fn created_date_template_renders(name: Seq<char>, item: Item, ms: u128)
    requires
        name == "year"@ || name == "month"@ || name == "day"@,
        item.created == TimeStamp::Millis(ms),
        ms <= i64::MAX,
        utc_date(ms as i64) is Some,
    ensures
        ({
            let (y, m, d) = utc_date(ms as i64)->0;
            outcome(created_template(name), item) == Ok::<Seq<Seq<char>>, crate::error::AppError>(
                seq![
                    if name == "year"@ {
                        signed_decimal(y as int)
                    } else if name == "month"@ {
                        decimal(m as nat)
                    } else {
                        decimal(d as nat)
                    },
                ],
            )
        }),
{
    reveal_strlit("year");
    reveal_strlit("month");
    reveal_strlit("day");
    assert(is_plain_word(name));
    lemma_created_template_parses(name);
    let token = token_of(name);
    assert(name == "year"@ ==> token == Token::Year);
    assert(name == "month"@ ==> token == Token::Month);
    assert(name == "day"@ ==> token == Token::Day);
    created_date_renders_alone(token, item, ms);
}

proof fn lemma_split_concat(a: Seq<char>, b: Seq<char>, c: char)
    ensures
        split(a + seq![c] + b, c) == split(a, c) + split(b, c),
    decreases a.len(),
{
    let s = a + seq![c] + b;
    let k = find(a, c) as int;
    lemma_find(a, c);
    assert forall|i: int| 0 <= i < a.len() implies s[i] == a[i] by {}
    if k >= a.len() {
        assert(s[a.len() as int] == c);
        lemma_find_least(s, c, a.len() as int);
        assert(s.subrange(0, a.len() as int) =~= a);
        assert(s.subrange(a.len() as int + 1, s.len() as int) =~= b);
        assert(split(a, c) == seq![a]);
    } else {
        lemma_find_least(s, c, k);
        let rest = a.subrange(k + 1, a.len() as int);
        lemma_split_concat(rest, b, c);
        assert(s.subrange(0, k) =~= a.subrange(0, k));
        assert(s.subrange(k + 1, s.len() as int) =~= rest + seq![c] + b);
        assert(split(a, c) == seq![a.subrange(0, k)] + split(rest, c));
        assert(split(s, c) =~= split(a, c) + split(b, c));
    }
}

proof fn lemma_bare_variable_parses(w: Seq<char>)
    requires
        is_plain_word(w),
    ensures
        parts_of(seq!['{'] + w + seq!['}']) == Some(
            seq![PartView::Variable(VariableView { token: token_of(w), qualifiers: Seq::empty() })],
        ),
        split(seq!['{'] + w + seq!['}'], '/') == seq![seq!['{'] + w + seq!['}']],
{
    let n = w.len() as int;
    let s = seq!['{'] + w + seq!['}'];
    assert(s.len() == n + 2);
    assert(forall|i: int| 0 <= i < n ==> s[1 + i] == #[trigger] w[i]);
    assert forall|i: int| 0 <= i < s.len() implies #[trigger] s[i] != '/' by {
        if 1 <= i < n + 1 {
            assert(s[i] == w[i - 1]);
        }
    }
    lemma_find_least(s, '/', s.len() as int);
    assert(split(s, '/') == seq![s]);
    assert forall|i: int| 0 <= i < n + 1 implies #[trigger] s[i] != '}' by {
        if 1 <= i < n + 1 {
            assert(s[i] == w[i - 1]);
        }
    }
    lemma_find_least(s, '}', n + 1);
    let body = s.subrange(1, n + 1);
    assert(body =~= w);
    lemma_find_least(w, '{', n);
    lemma_find_least(w, ':', n);
    assert(split(w, ':') == seq![w]);
    assert(seq![w].drop_first() =~= Seq::<Seq<char>>::empty());
    assert(qualifier_list(Seq::<Seq<char>>::empty()) == Some(Seq::<QualifierView>::empty()));
    let v = VariableView { token: token_of(w), qualifiers: Seq::empty() };
    assert(seq![w][0] == w);
    assert(variable_of(w) == Some(v));
    assert(s.subrange(n + 2, n + 2) =~= Seq::<char>::empty());
    assert(parts_of(Seq::<char>::empty()) == Some(Seq::<PartView>::empty()));
    assert(seq![PartView::Variable(v)] + Seq::<PartView>::empty() =~= seq![PartView::Variable(v)]);
}

/// An unknown token neither fails nor adds a segment: the template
/// `A/{name}/B`, where `name` is a plain word that names no token, renders
/// exactly as `A/B` does, failures included.
pub proof fn unknown_token_component_is_left_out(a: Seq<char>, b: Seq<char>, name: Seq<char>, item: Item)
    requires
        is_plain_word(name),
        token_of(name) == Token::Unknown,
    ensures
        outcome(a + seq!['/', '{'] + name + seq!['}', '/'] + b, item) == outcome(
            a + seq!['/'] + b,
            item,
        ),
{
    let x = seq!['{'] + name + seq!['}'];
    let whole = a + seq!['/', '{'] + name + seq!['}', '/'] + b;
    let short = a + seq!['/'] + b;
    assert(whole =~= a + seq!['/'] + (x + seq!['/'] + b));
    lemma_split_concat(a, x + seq!['/'] + b, '/');
    lemma_split_concat(x, b, '/');
    lemma_split_concat(a, b, '/');
    lemma_bare_variable_parses(name);
    let sa = split(a, '/');
    let sb = split(b, '/');
    let p = split(whole, '/');
    let q = split(short, '/');
    assert(p =~= sa + seq![x] + sb);
    assert(q == sa + sb);
    let v = VariableView { token: token_of(name), qualifiers: Seq::empty() };
    let cx = seq![PartView::Variable(v)];
    assert(parts_of(x) == Some(cx));
    if forall|i: int| 0 <= i < q.len() ==> (#[trigger] parts_of(q[i])) is Some {
        assert forall|i: int| 0 <= i < p.len() implies (#[trigger] parts_of(p[i])) is Some by {
            if i < sa.len() {
                assert(p[i] == q[i]);
            } else if i > sa.len() {
                assert(p[i] == q[i - 1]);
            }
        }
        let ta = sa.map_values(|c: Seq<char>| parts_of(c)->0);
        let tb = sb.map_values(|c: Seq<char>| parts_of(c)->0);
        assert(p.map_values(|c: Seq<char>| parts_of(c)->0) =~= ta.push(cx) + tb);
        assert(q.map_values(|c: Seq<char>| parts_of(c)->0) =~= ta + tb);
        lemma_single_part(PartView::Variable(v), item);
        assert(resolve_part(PartView::Variable(v), item) == Ok::<
            Option<Seq<char>>,
            crate::item::ItemError,
        >(None));
        assert(!contributes(seq![None::<Seq<char>>][0]));
        lemma_dropped_component(ta, cx, tb, item);
    } else {
        let i = choose|i: int| 0 <= i < q.len() && !(#[trigger] parts_of(q[i]) is Some);
        if i < sa.len() {
            assert(p[i] == q[i]);
            assert(!(parts_of(p[i]) is Some));
        } else {
            assert(p[i + 1] == q[i]);
            assert(!(parts_of(p[i + 1]) is Some));
        }
    }
}

/// All or nothing, over what the parts resolve to: where no part of a
/// component fails, the component adds its joined text as one segment when
/// it has parts and every one of them resolved to text that is not empty,
/// and adds nothing otherwise.
pub proof fn component_is_all_or_nothing(t: Seq<Seq<PartView>>, c: Seq<PartView>, item: Item)
    requires
        render_spec(t, item) is Ok,
        resolve_parts(c, item) is Ok,
    ensures
        ({
            let segs = render_spec(t, item)->Ok_0;
            let os = resolve_parts(c, item)->Ok_0;
            render_spec(t.push(c), item) == Ok::<Seq<Seq<char>>, crate::item::ItemError>(
                if os.len() > 0 && forall|j: int| 0 <= j < os.len() ==> contributes(#[trigger] os[j]) {
                    segs.push(crate::render::joined(os))
                } else {
                    segs
                },
            )
        }),
{
    assert(t.push(c).drop_last() =~= t);
}

/// Rendering is a function of the template text and the item alone: the same
/// pair renders to the same path, or fails the same way, every time.
pub proof fn rendering_is_repeatable(pattern: Seq<char>, first: Item, second: Item)
    requires
        first == second,
    ensures
        outcome(pattern, first) == outcome(pattern, second),
{
}

} // verus!
