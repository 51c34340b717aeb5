//! The parser for templates, proved to accept exactly what the grammar in
//! `template` describes and to build the tree that it gives.

use vstd::prelude::*;
use crate::template::{
    bucket_list, digits_value, is_amount, is_brace, is_digit, lemma_bucket_list_rest,
    lemma_text_len, opens_bucket, parts_of, parts_view, qualifier_list, qualifier_of,
    qualifiers_view, template_of, text_len, thresholds_view, variable_of, Part, PartView,
    Qualifier, QualifierView, Template, Threshold, ThresholdView, Variable,
};
use crate::text::{
    chars_in, chars_of, field_views, find_in, lemma_find, lemma_split_nonempty, split,
    split_chars, string_of,
};
use crate::vocabulary::{Comparator, Modifier, Specifier, Token, Unit};

verus! {

pub open spec fn extend_buckets(
    pre: Seq<ThresholdView>,
    r: Option<(Seq<ThresholdView>, Seq<Seq<char>>)>,
) -> Option<(Seq<ThresholdView>, Seq<Seq<char>>)> {
    match r {
        Some((ts, rest)) => Some((pre + ts, rest)),
        None => None,
    }
}

pub open spec fn extend<T>(pre: Seq<T>, r: Option<Seq<T>>) -> Option<Seq<T>> {
    match r {
        Some(s) => Some(pre + s),
        None => None,
    }
}

proof fn lemma_digits_prefix(s: Seq<char>, i: int)
    requires
        0 <= i <= s.len(),
        forall|j: int| 0 <= j < s.len() ==> is_digit(#[trigger] s[j]),
    ensures
        digits_value(s.subrange(0, i)) <= digits_value(s),
    decreases s.len(),
{
    if i < s.len() {
        let t = s.drop_last();
        assert forall|j: int| 0 <= j < t.len() implies is_digit(#[trigger] t[j]) by {
            assert(t[j] == s[j]);
        }
        lemma_digits_prefix(t, i);
        assert(t.subrange(0, i) =~= s.subrange(0, i));
    } else {
        assert(s.subrange(0, i) =~= s);
    }
}

/// The value of a bucket amount, or `None` where `f` is not one.
fn parse_amount(f: &Vec<char>) -> (r: Option<u64>)
    ensures
        r matches Some(v) ==> is_amount(f@) && v == digits_value(f@),
        r is None ==> !is_amount(f@),
{
    let n = f.len();
    if n == 0 {
        return None;
    }
    let mut v: u64 = 0;
    let mut i: usize = 0;
    while i < n
        invariant
            n == f@.len(),
            i <= n,
            v == digits_value(f@.subrange(0, i as int)),
            forall|j: int| 0 <= j < i ==> is_digit(#[trigger] f@[j]),
        decreases n - i,
    {
        let c = f[i];
        if !(c >= '0' && c <= '9') {
            return None;
        }
        let d: u64 = (c as u32 - '0' as u32) as u64;
        assert(f@.subrange(0, i + 1).drop_last() =~= f@.subrange(0, i as int));
        if v > (u64::MAX - d) / 10 {
            proof {
                assert(v * 10 + d > u64::MAX) by (nonlinear_arith)
                    requires
                        v > (u64::MAX - d) / 10,
                        d <= 9,
                ;
                if forall|j: int| 0 <= j < n ==> is_digit(#[trigger] f@[j]) {
                    lemma_digits_prefix(f@, i + 1);
                }
            }
            return None;
        }
        proof {
            assert(v * 10 + d <= u64::MAX) by (nonlinear_arith)
                requires
                    v <= (u64::MAX - d) / 10,
                    d <= 9,
            ;
        }
        v = v * 10 + d;
        i = i + 1;
    }
    assert(f@.subrange(0, n as int) =~= f@);
    Some(v)
}

/// Whether the fields from `start` open a bucket.
fn opens_bucket_at(fs: &Vec<Vec<char>>, start: usize) -> (r: bool)
    requires
        start <= fs@.len(),
    ensures
        r == opens_bucket(field_views(fs@).subrange(start as int, fs@.len() as int)),
{
    let ghost sub = field_views(fs@).subrange(start as int, fs@.len() as int);
    if fs.len() - start < 4 {
        return false;
    }
    assert(sub[1] == fs@[start + 1]@ && sub[2] == fs@[start + 2]@);
    Comparator::from_text(&fs[start + 1]).is_some() && parse_amount(&fs[start + 2]).is_some()
}

/// The bucket list at `start` and the position of the field after it.
fn parse_buckets(fs: &Vec<Vec<char>>, start: usize) -> (r: Option<(Vec<Threshold>, usize)>)
    requires
        start <= fs@.len(),
    ensures
        match bucket_list(field_views(fs@).subrange(start as int, fs@.len() as int)) {
            None => r is None,
            Some((ts, rest)) => r matches Some((v, e)) && thresholds_view(v@) == ts && e
                <= fs@.len() && rest == field_views(fs@).subrange(e as int, fs@.len() as int),
        },
{
    let n = fs.len();
    let ghost fv = field_views(fs@);
    if n - start < 4 {
        return None;
    }
    let mut out: Vec<Threshold> = Vec::new();
    let mut name = chars_in(&fs[start], 0, fs[start].len());
    let mut i: usize = start;
    assert(fs@[start as int]@.subrange(0, fs@[start as int]@.len() as int) =~= fs@[start as int]@);
    assert(fv[start as int] == fs@[start as int]@);
    assert(seq![name@] + fv.subrange(i + 1, n as int) =~= fv.subrange(start as int, n as int));
    loop
        invariant
            n == fs@.len(),
            fv == field_views(fs@),
            start <= i < n,
            bucket_list(fv.subrange(start as int, n as int)) == extend_buckets(
                thresholds_view(out@),
                bucket_list(seq![name@] + fv.subrange(i + 1, n as int)),
            ),
        decreases n - i,
    {
        let ghost cur = seq![name@] + fv.subrange(i + 1, n as int);
        if n - i < 4 {
            return None;
        }
        assert(cur[1] == fs@[i + 1]@ && cur[2] == fs@[i + 2]@ && cur[3] == fs@[i + 3]@);
        let cmp = Comparator::from_text(&fs[i + 1]);
        let amount = parse_amount(&fs[i + 2]);
        let (c, a) = match (cmp, amount) {
            (Some(c), Some(a)) => (c, a),
            _ => {
                return None;
            },
        };
        let last = &fs[i + 3];
        let k = find_in(last, 0, last.len(), ',');
        assert(last@.subrange(0, last@.len() as int) =~= last@);
        let unit = Unit::from_text(&chars_in(last, 0, k));
        let t = Threshold { name: string_of(&name, 0, name.len()), comparator: c, amount: a, unit };
        assert(name@.subrange(0, name@.len() as int) =~= name@);
        let ghost before = thresholds_view(out@);
        out.push(t);
        assert(thresholds_view(out@) =~= before.push(t@));
        assert(cur.subrange(4, cur.len() as int) =~= fv.subrange(i + 4, n as int));
        if k == last.len() {
            assert(thresholds_view(out@) =~= before + seq![t@]);
            return Some((out, i + 4));
        }
        if k == 0 || k + 1 == last.len() {
            return None;
        }
        name = chars_in(last, k + 1, last.len());
        assert(thresholds_view(out@) =~= before + seq![t@]);
        proof {
            let next = seq![name@] + fv.subrange(i + 4, n as int);
            match bucket_list(next) {
                Some((ts, after)) => {
                    assert(before + (seq![t@] + ts) =~= thresholds_view(out@) + ts);
                },
                None => {},
            }
        }
        i = i + 3;
    }
}

/// The qualifier that a single field names.
fn qualifier_from(f: &Vec<char>) -> (r: Qualifier)
    ensures
        r@ == qualifier_of(f@),
{
    let s = Specifier::from_text(f);
    if s != Specifier::Unknown {
        return Qualifier::Specifier(s);
    }
    let m = Modifier::from_text(f);
    if m != Modifier::Unknown {
        return Qualifier::Modifier(m);
    }
    Qualifier::Ignored
}

/// The qualifiers that the fields from `start` spell.
fn parse_qualifiers(fs: &Vec<Vec<char>>, start: usize) -> (r: Option<Vec<Qualifier>>)
    requires
        start <= fs@.len(),
    ensures
        match qualifier_list(field_views(fs@).subrange(start as int, fs@.len() as int)) {
            None => r is None,
            Some(qs) => r matches Some(v) && qualifiers_view(v@) == qs,
        },
{
    let n = fs.len();
    let ghost fv = field_views(fs@);
    let mut out: Vec<Qualifier> = Vec::new();
    let mut i: usize = start;
    loop
        invariant
            n == fs@.len(),
            fv == field_views(fs@),
            start <= i <= n,
            qualifier_list(fv.subrange(start as int, n as int)) == extend(
                qualifiers_view(out@),
                qualifier_list(fv.subrange(i as int, n as int)),
            ),
        decreases n - i,
    {
        let ghost sub = fv.subrange(i as int, n as int);
        let ghost before = qualifiers_view(out@);
        if i == n {
            assert(before + Seq::<QualifierView>::empty() =~= before);
            return Some(out);
        }
        if opens_bucket_at(fs, i) {
            match parse_buckets(fs, i) {
                None => {
                    return None;
                },
                Some((ts, e)) => {
                    proof {
                        lemma_bucket_list_rest(sub);
                    }
                    let q = Qualifier::Thresholds(ts);
                    out.push(q);
                    assert(qualifiers_view(out@) =~= before.push(q@));
                    proof {
                        match qualifier_list(fv.subrange(e as int, n as int)) {
                            Some(qs) => {
                                assert(before + (seq![q@] + qs) =~= qualifiers_view(out@) + qs);
                            },
                            None => {},
                        }
                    }
                    i = e;
                },
            }
        } else {
            assert(sub[0] == fs@[i as int]@);
            let q = qualifier_from(&fs[i]);
            out.push(q);
            assert(qualifiers_view(out@) =~= before.push(q@));
            assert(sub.drop_first() =~= fv.subrange(i + 1, n as int));
            proof {
                match qualifier_list(fv.subrange(i + 1, n as int)) {
                    Some(qs) => {
                        assert(before + (seq![q@] + qs) =~= qualifiers_view(out@) + qs);
                    },
                    None => {},
                }
            }
            i = i + 1;
        }
    }
}

/// The variable written between braces as `body`.
fn parse_variable(body: &Vec<char>) -> (r: Option<Variable>)
    ensures
        match variable_of(body@) {
            None => r is None,
            Some(v) => r matches Some(x) && x@ == v,
        },
{
    let fs = split_chars(body, ':');
    let ghost fv = field_views(fs@);
    proof {
        lemma_split_nonempty(body@, ':');
    }
    let mut j: usize = 0;
    while j < fs.len()
        invariant
            fv == field_views(fs@),
            fv == split(body@, ':'),
            j <= fs@.len(),
            forall|i: int| 0 <= i < j ==> (#[trigger] fv[i]).len() > 0,
        decreases fs@.len() - j,
    {
        if fs[j].len() == 0 {
            assert(fv[j as int].len() == 0);
            return None;
        }
        j = j + 1;
    }
    let qs = parse_qualifiers(&fs, 1);
    assert(fv.subrange(1, fv.len() as int) =~= fv.drop_first());
    match qs {
        None => None,
        Some(qs) => {
            if qs.len() > 2 {
                return None;
            }
            let token = Token::from_text(&fs[0]);
            Some(Variable { token, qualifiers: qs })
        },
    }
}

proof fn lemma_text_len_least(c: Seq<char>, k: int)
    requires
        0 <= k <= c.len(),
        k < c.len() ==> is_brace(c[k]),
        forall|i: int| 0 <= i < k ==> !is_brace(#[trigger] c[i]),
    ensures
        text_len(c) == k,
{
    lemma_text_len(c);
    if text_len(c) < k {
        assert(!is_brace(c[text_len(c) as int]));
    }
}

/// The end of the literal text that starts at `i`.
fn text_end(c: &Vec<char>, i: usize) -> (r: usize)
    requires
        i <= c@.len(),
    ensures
        r - i == text_len(c@.subrange(i as int, c@.len() as int)),
        i <= r <= c@.len(),
{
    let n = c.len();
    let mut j: usize = i;
    while j < n && c[j] != '{' && c[j] != '}'
        invariant
            n == c@.len(),
            i <= j <= n,
            forall|k: int| i <= k < j ==> !is_brace(#[trigger] c@[k]),
        decreases n - j,
    {
        j = j + 1;
    }
    proof {
        let sub = c@.subrange(i as int, n as int);
        assert forall|k: int| 0 <= k < j - i implies !is_brace(#[trigger] sub[k]) by {
            assert(sub[k] == c@[i + k]);
        }
        if j < n {
            assert(sub[j - i] == c@[j as int]);
        }
        lemma_text_len_least(sub, j - i);
    }
    j
}

/// The parts of one component.
fn parse_parts(c: &Vec<char>) -> (r: Option<Vec<Part>>)
    ensures
        match parts_of(c@) {
            None => r is None,
            Some(ps) => r matches Some(v) && parts_view(v@) == ps,
        },
{
    let n = c.len();
    let mut out: Vec<Part> = Vec::new();
    let mut i: usize = 0;
    assert(c@.subrange(0, n as int) =~= c@);
    loop
        invariant
            n == c@.len(),
            i <= n,
            parts_of(c@) == extend(parts_view(out@), parts_of(c@.subrange(i as int, n as int))),
        decreases n - i,
    {
        let ghost sub = c@.subrange(i as int, n as int);
        let ghost before = parts_view(out@);
        if i == n {
            assert(before + Seq::<PartView>::empty() =~= before);
            return Some(out);
        }
        assert(sub[0] == c@[i as int]);
        let ch = c[i];
        if ch == '{' {
            let j = find_in(c, i, n, '}');
            if j == n {
                return None;
            }
            let body = chars_in(c, i + 1, j);
            proof {
                lemma_find(sub, '}');
                assert(body@ =~= sub.subrange(1, j - i));
            }
            let b = find_in(&body, 0, body.len(), '{');
            assert(body@.subrange(0, body@.len() as int) =~= body@);
            if b < body.len() {
                return None;
            }
            match parse_variable(&body) {
                None => {
                    return None;
                },
                Some(v) => {
                    let p = Part::Variable(v);
                    out.push(p);
                    assert(parts_view(out@) =~= before.push(p@));
                    assert(sub.subrange(j - i + 1, sub.len() as int) =~= c@.subrange(
                        j + 1,
                        n as int,
                    ));
                    proof {
                        match parts_of(c@.subrange(j + 1, n as int)) {
                            Some(ps) => {
                                assert(before + (seq![p@] + ps) =~= parts_view(out@) + ps);
                            },
                            None => {},
                        }
                    }
                    i = j + 1;
                },
            }
        } else if ch == '}' {
            return None;
        } else {
            let j = text_end(c, i);
            proof {
                lemma_text_len(sub);
            }
            let p = Part::Text(string_of(c, i, j));
            out.push(p);
            assert(parts_view(out@) =~= before.push(p@));
            assert(sub.subrange(0, j - i) =~= c@.subrange(i as int, j as int));
            assert(sub.subrange(j - i, sub.len() as int) =~= c@.subrange(j as int, n as int));
            proof {
                match parts_of(c@.subrange(j as int, n as int)) {
                    Some(ps) => {
                        assert(before + (seq![p@] + ps) =~= parts_view(out@) + ps);
                    },
                    None => {},
                }
            }
            i = j;
        }
    }
}

/// The value of decimal text as `str::parse::<u64>` reads it: an optional
/// `+`, then digits.
pub open spec fn unsigned_of(s: Seq<char>) -> Option<u64> {
    let d = if s.len() > 0 && s[0] == '+' {
        s.drop_first()
    } else {
        s
    };
    if is_amount(d) {
        Some(digits_value(d) as u64)
    } else {
        None
    }
}

/// Reads decimal text as `str::parse::<u64>` does.
pub fn parse_unsigned(s: &str) -> (r: Option<u64>)
    ensures
        r == unsigned_of(s@),
{
    let cs = chars_of(s);
    let digits = if cs.len() > 0 && cs[0] == '+' {
        chars_in(&cs, 1, cs.len())
    } else {
        cs
    };
    assert(s@.len() > 0 && s@[0] == '+' ==> s@.drop_first() =~= s@.subrange(1, s@.len() as int));
    parse_amount(&digits)
}

impl Template {
    /// Parses a template; `None` exactly where the text is malformed.
    pub fn parse(s: &str) -> (r: Option<Template>)
        ensures
            match template_of(s@) {
                None => r is None,
                Some(t) => r matches Some(x) && x@ == t,
            },
    {
        let cs = chars_of(s);
        let pieces = split_chars(&cs, '/');
        let ghost pv = field_views(pieces@);
        let mut components: Vec<Vec<Part>> = Vec::new();
        let mut i: usize = 0;
        while i < pieces.len()
            invariant
                pv == field_views(pieces@),
                pv == split(s@, '/'),
                i <= pieces@.len(),
                components@.len() == i,
                forall|k: int| 0 <= k < i ==> (#[trigger] parts_of(pv[k])) is Some,
                forall|k: int|
                    0 <= k < i ==> parts_view(#[trigger] components@[k]@) == parts_of(pv[k])->0,
            decreases pieces@.len() - i,
        {
            match parse_parts(&pieces[i]) {
                None => {
                    assert(parts_of(pv[i as int]) is None);
                    return None;
                },
                Some(ps) => {
                    components.push(ps);
                },
            }
            i = i + 1;
        }
        let t = Template { components };
        assert(t@ =~= pv.map_values(|c: Seq<char>| parts_of(c)->0));
        Some(t)
    }
}

} // verus!
