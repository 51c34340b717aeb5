//! Rendering a template against an item's facts into a relative path.
//!
//! Each variable resolves to some text, to nothing, or to a failure. A
//! component becomes one path segment only where every one of its parts
//! resolved to text that is not empty; any failure, of a date or of a media
//! dimension, aborts the whole render.

use vstd::prelude::*;
use vstd::string::*;
use crate::error::AppError;
use crate::item::{
    date_of, dimension_of, guessed_mime, kind_label, mime_text, path_extension, EntryKind, Item,
    ItemError, Kind,
};
use crate::template::{
    parts_view, qualifiers_view, template_of, thresholds_view, Part, PartView, QualifierView,
    Qualifier, Template, ThresholdView, Variable, VariableView,
};
use crate::text::{decimal, decimal_text, push_char, push_decimal};
use crate::threshold::{select_bucket, select_threshold};
use crate::vocabulary::{Specifier, Token};

verus! {

/// The specifier that a variable's qualifiers give: the last one written.
pub open spec fn specifier_in(qs: Seq<QualifierView>) -> Option<Specifier>
    decreases qs.len(),
{
    if qs.len() == 0 {
        None
    } else {
        match qs.last() {
            QualifierView::Specifier(s) => Some(s),
            _ => specifier_in(qs.drop_last()),
        }
    }
}

/// All buckets of a variable's qualifiers, in written order.
pub open spec fn thresholds_in(qs: Seq<QualifierView>) -> Seq<ThresholdView>
    decreases qs.len(),
{
    if qs.len() == 0 {
        Seq::empty()
    } else {
        thresholds_in(qs.drop_last()) + match qs.last() {
            QualifierView::Thresholds(ts) => ts,
            _ => Seq::empty(),
        }
    }
}

/// Decimal text of a signed number, with a leading `-` where it is negative.
pub open spec fn signed_decimal(i: int) -> Seq<char> {
    if i < 0 {
        seq!['-'] + decimal((-i) as nat)
    } else {
        decimal(i as nat)
    }
}

pub open spec fn is_file(item: Item) -> bool {
    item.entry == EntryKind::File
}

/// What variable `v` contributes for `item`: some text, nothing, or a
/// failure that aborts the render.
pub open spec fn resolve(v: VariableView, item: Item) -> Result<Option<Seq<char>>, ItemError> {
    match v.token {
        Token::Year | Token::Month | Token::Day => match specifier_in(v.qualifiers) {
            None => Err(ItemError::UnknownSpecifier),
            Some(s) => match date_of(item, s) {
                Err(e) => Err(e),
                Ok((y, m, d)) => Ok(
                    Some(
                        if v.token == Token::Year {
                            signed_decimal(y as int)
                        } else if v.token == Token::Month {
                            decimal(m as nat)
                        } else {
                            decimal(d as nat)
                        },
                    ),
                ),
            },
        },
        Token::MimeType => Ok(
            if is_file(item) {
                Some(mime_text(item.path@))
            } else {
                None
            },
        ),
        Token::Extension => Ok(
            if is_file(item) {
                path_extension(item.path@)
            } else {
                None
            },
        ),
        Token::Size => Ok(
            if !is_file(item) {
                None
            } else if thresholds_in(v.qualifiers).len() == 0 {
                Some(decimal(item.size as nat))
            } else {
                select_bucket(thresholds_in(v.qualifiers), item.size as nat)
            },
        ),
        Token::Kind => Ok(
            if !is_file(item) {
                Some("directory"@)
            } else {
                match item.kind {
                    None => None,
                    Some(Kind::Application) => match guessed_mime(item.path@) {
                        Some((t, s)) => Some(t),
                        None => None,
                    },
                    Some(k) => Some(kind_label(k)),
                }
            },
        ),
        Token::Width => match dimension_of(item, true) {
            Ok(w) => Ok(Some(decimal(w as nat))),
            Err(e) => Err(e),
        },
        Token::Height => match dimension_of(item, false) {
            Ok(h) => Ok(Some(decimal(h as nat))),
            Err(e) => Err(e),
        },
        Token::Unknown => Ok(None),
    }
}

pub open spec fn resolve_part(p: PartView, item: Item) -> Result<Option<Seq<char>>, ItemError> {
    match p {
        PartView::Text(t) => Ok(Some(t)),
        PartView::Variable(v) => resolve(v, item),
    }
}

/// What each part of a component contributes, or the first failure.
pub open spec fn resolve_parts(ps: Seq<PartView>, item: Item) -> Result<
    Seq<Option<Seq<char>>>,
    ItemError,
>
    decreases ps.len(),
{
    if ps.len() == 0 {
        Ok(Seq::empty())
    } else {
        match resolve_parts(ps.drop_last(), item) {
            Err(e) => Err(e),
            Ok(os) => match resolve_part(ps.last(), item) {
                Err(e) => Err(e),
                Ok(o) => Ok(os.push(o)),
            },
        }
    }
}

/// The contributions joined in order.
pub open spec fn joined(os: Seq<Option<Seq<char>>>) -> Seq<char>
    decreases os.len(),
{
    if os.len() == 0 {
        Seq::empty()
    } else {
        joined(os.drop_last()) + match os.last() {
            Some(t) => t,
            None => Seq::empty(),
        }
    }
}

/// Whether a part contributed text that is not empty.
pub open spec fn contributes(o: Option<Seq<char>>) -> bool {
    o is Some && o->0.len() > 0
}

/// The path segment that a component's contributions make: only where the
/// component has parts and every one of them contributed text that is not
/// empty. A part that resolves to empty text counts as contributing nothing.
pub open spec fn segment(os: Seq<Option<Seq<char>>>) -> Option<Seq<char>> {
    if os.len() > 0 && (forall|i: int| 0 <= i < os.len() ==> contributes(#[trigger] os[i])) {
        Some(joined(os))
    } else {
        None
    }
}

/// The path segments that template `t` renders to for `item`, in order.
pub open spec fn render_spec(t: Seq<Seq<PartView>>, item: Item) -> Result<
    Seq<Seq<char>>,
    ItemError,
>
    decreases t.len(),
{
    if t.len() == 0 {
        Ok(Seq::empty())
    } else {
        match render_spec(t.drop_last(), item) {
            Err(e) => Err(e),
            Ok(segs) => match resolve_parts(t.last(), item) {
                Err(e) => Err(e),
                Ok(os) => match segment(os) {
                    Some(s) => Ok(segs.push(s)),
                    None => Ok(segs),
                },
            },
        }
    }
}

/// What rendering the template text `pattern` for `item` gives.
pub open spec fn outcome(pattern: Seq<char>, item: Item) -> Result<Seq<Seq<char>>, AppError> {
    match template_of(pattern) {
        None => Err(AppError::Pattern),
        Some(t) => match render_spec(t, item) {
            Ok(segs) => Ok(segs),
            Err(e) => Err(AppError::ItemError { error: e }),
        },
    }
}

pub open spec fn strings_view(v: Seq<String>) -> Seq<Seq<char>> {
    v.map_values(|s: String| s@)
}

pub open spec fn text_view(r: Result<Option<String>, ItemError>) -> Result<
    Option<Seq<char>>,
    ItemError,
> {
    match r {
        Ok(Some(s)) => Ok(Some(s@)),
        Ok(None) => Ok(None),
        Err(e) => Err(e),
    }
}

pub proof fn lemma_select_concat(a: Seq<ThresholdView>, b: Seq<ThresholdView>, size: nat)
    ensures
        select_bucket(a + b, size) == match select_bucket(a, size) {
            Some(n) => Some(n),
            None => select_bucket(b, size),
        },
    decreases a.len(),
{
    if a.len() > 0 {
        lemma_select_concat(a.drop_first(), b, size);
        assert((a + b).drop_first() =~= a.drop_first() + b);
    } else {
        assert(a + b =~= b);
    }
}

/// Whether part `p` is a variable of `token`.
pub open spec fn names_token(p: PartView, token: Token) -> bool {
    p matches PartView::Variable(v) && v.token == token
}

/// Whether some variable of the template is of `token`.
pub open spec fn mentions_token(t: Seq<Seq<PartView>>, token: Token) -> bool {
    exists|i: int, j: int| 0 <= i < t.len() && 0 <= j < t[i].len() && #[trigger] names_token(t[i][j], token)
}

impl Template {
    /// Whether some variable of the template is of `token`.
    pub fn mentions(&self, token: Token) -> (r: bool)
        ensures
            r == mentions_token(self@, token),
    {
        let ghost tv = self@;
        let mut i: usize = 0;
        while i < self.components.len()
            invariant
                tv == self@,
                i <= tv.len(),
                forall|a: int, b: int|
                    0 <= a < i && 0 <= b < tv[a].len() ==> !#[trigger] names_token(tv[a][b], token),
            decreases tv.len() - i,
        {
            let c = &self.components[i];
            assert(tv[i as int] == parts_view(c@));
            let mut j: usize = 0;
            while j < c.len()
                invariant
                    tv == self@,
                    i < tv.len(),
                    tv[i as int] == parts_view(c@),
                    j <= c@.len(),
                    forall|a: int, b: int|
                        0 <= a < i && 0 <= b < tv[a].len() ==> !#[trigger] names_token(tv[a][b], token),
                    forall|b: int| 0 <= b < j ==> !#[trigger] names_token(tv[i as int][b], token),
                decreases c@.len() - j,
            {
                assert(tv[i as int][j as int] == c@[j as int]@);
                let found = match &c[j] {
                    Part::Variable(v) => v.token == token,
                    Part::Text(_) => false,
                };
                if found {
                    assert(names_token(tv[i as int][j as int], token));
                    return true;
                }
                j = j + 1;
            }
            i = i + 1;
        }
        false
    }
}

impl Variable {
    /// The specifier of the variable: the last one written.
    pub fn specifier(&self) -> (r: Option<Specifier>)
        ensures
            r == specifier_in(qualifiers_view(self.qualifiers@)),
    {
        let ghost qv = qualifiers_view(self.qualifiers@);
        let mut found: Option<Specifier> = None;
        let mut i: usize = 0;
        while i < self.qualifiers.len()
            invariant
                qv == qualifiers_view(self.qualifiers@),
                i <= qv.len(),
                found == specifier_in(qv.subrange(0, i as int)),
            decreases qv.len() - i,
        {
            assert(qv.subrange(0, i + 1).drop_last() =~= qv.subrange(0, i as int));
            match &self.qualifiers[i] {
                Qualifier::Specifier(s) => {
                    found = Some(*s);
                },
                _ => {},
            }
            i = i + 1;
        }
        assert(qv.subrange(0, qv.len() as int) =~= qv);
        found
    }

    /// Whether any size buckets are written in the variable.
    pub fn has_thresholds(&self) -> (r: bool)
        ensures
            r == (thresholds_in(qualifiers_view(self.qualifiers@)).len() > 0),
    {
        let ghost qv = qualifiers_view(self.qualifiers@);
        let mut count: usize = 0;
        let mut i: usize = 0;
        while i < self.qualifiers.len()
            invariant
                qv == qualifiers_view(self.qualifiers@),
                i <= qv.len(),
                (count > 0) == (thresholds_in(qv.subrange(0, i as int)).len() > 0),
            decreases qv.len() - i,
        {
            assert(qv.subrange(0, i + 1).drop_last() =~= qv.subrange(0, i as int));
            match &self.qualifiers[i] {
                Qualifier::Thresholds(ts) => {
                    if ts.len() > 0 {
                        count = 1;
                    }
                },
                _ => {},
            }
            i = i + 1;
        }
        assert(qv.subrange(0, qv.len() as int) =~= qv);
        count > 0
    }

    /// The name of the first bucket, over all the variable's buckets in
    /// written order, that a file of `size` bytes falls in.
    pub fn select(&self, size: u64) -> (r: Option<String>)
        ensures
            match select_bucket(thresholds_in(qualifiers_view(self.qualifiers@)), size as nat) {
                Some(n) => r matches Some(s) && s@ == n,
                None => r is None,
            },
    {
        let ghost qv = qualifiers_view(self.qualifiers@);
        let mut i: usize = 0;
        while i < self.qualifiers.len()
            invariant
                qv == qualifiers_view(self.qualifiers@),
                i <= qv.len(),
                select_bucket(thresholds_in(qv.subrange(0, i as int)), size as nat) is None,
            decreases qv.len() - i,
        {
            let ghost pre = qv.subrange(0, i as int);
            assert(qv.subrange(0, i + 1).drop_last() =~= pre);
            match &self.qualifiers[i] {
                Qualifier::Thresholds(ts) => {
                    let found = select_threshold(ts, size);
                    proof {
                        lemma_select_concat(thresholds_in(pre), thresholds_view(ts@), size as nat);
                    }
                    if found.is_some() {
                        proof {
                            lemma_select_concat(
                                thresholds_in(qv.subrange(0, i + 1)),
                                thresholds_in(qv.subrange(i + 1, qv.len() as int)),
                                size as nat,
                            );
                            lemma_thresholds_split(qv, i + 1);
                        }
                        return found;
                    }
                },
                _ => {
                    assert(thresholds_in(qv.subrange(0, i + 1)) =~= thresholds_in(pre));
                },
            }
            i = i + 1;
        }
        assert(qv.subrange(0, qv.len() as int) =~= qv);
        None
    }
}

proof fn lemma_thresholds_split(qs: Seq<QualifierView>, k: int)
    requires
        0 <= k <= qs.len(),
    ensures
        thresholds_in(qs) == thresholds_in(qs.subrange(0, k)) + thresholds_in(
            qs.subrange(k, qs.len() as int),
        ),
    decreases qs.len(),
{
    if k == qs.len() {
        assert(qs.subrange(0, k) =~= qs);
        assert(thresholds_in(qs.subrange(k, qs.len() as int)) =~= Seq::<ThresholdView>::empty());
        assert(thresholds_in(qs) + Seq::<ThresholdView>::empty() =~= thresholds_in(qs));
    } else {
        let d = qs.drop_last();
        lemma_thresholds_split(d, k);
        assert(d.subrange(0, k) =~= qs.subrange(0, k));
        assert(qs.subrange(k, qs.len() as int).drop_last() =~= d.subrange(k, d.len() as int));
        assert(qs.subrange(k, qs.len() as int).last() == qs.last());
        let tail = match qs.last() {
            QualifierView::Thresholds(ts) => ts,
            _ => Seq::empty(),
        };
        assert(thresholds_in(qs.subrange(0, k)) + (thresholds_in(d.subrange(k, d.len() as int))
            + tail) =~= (thresholds_in(qs.subrange(0, k)) + thresholds_in(
            d.subrange(k, d.len() as int),
        )) + tail);
    }
}

/// Decimal text of a year, signed.
fn signed_decimal_text(y: i32) -> (r: String)
    ensures
        r@ == signed_decimal(y as int),
{
    let mut r = String::new();
    if y < 0 {
        push_char(&mut r, '-');
        push_decimal(&mut r, (-(y as i64)) as u64);
    } else {
        push_decimal(&mut r, y as u64);
    }
    assert(r@ =~= signed_decimal(y as int));
    r
}

/// What variable `v` contributes for `item`.
pub fn resolve_variable(v: &Variable, item: &Item) -> (r: Result<Option<String>, ItemError>)
    ensures
        text_view(r) == resolve(v@, *item),
{
    match v.token {
        Token::Year | Token::Month | Token::Day => {
            let s = match v.specifier() {
                None => {
                    return Err(ItemError::UnknownSpecifier);
                },
                Some(s) => s,
            };
            let d = match item.datetime(s) {
                Err(e) => {
                    return Err(e);
                },
                Ok(d) => d,
            };
            let text = match v.token {
                Token::Year => signed_decimal_text(d.year),
                Token::Month => decimal_text(d.month as u64),
                _ => decimal_text(d.day as u64),
            };
            Ok(Some(text))
        },
        Token::MimeType => {
            if item.is_file() {
                Ok(Some(item.mime()))
            } else {
                Ok(None)
            }
        },
        Token::Extension => {
            if item.is_file() {
                Ok(item.extension())
            } else {
                Ok(None)
            }
        },
        Token::Size => {
            if !item.is_file() {
                Ok(None)
            } else if !v.has_thresholds() {
                Ok(Some(decimal_text(item.size)))
            } else {
                Ok(v.select(item.size))
            }
        },
        Token::Kind => {
            if !item.is_file() {
                Ok(Some(String::from_str("directory")))
            } else {
                match item.kind {
                    None => Ok(None),
                    Some(Kind::Application) => Ok(item.mime_type()),
                    Some(k) => Ok(Some(k.label())),
                }
            }
        },
        Token::Width => match item.width() {
            Ok(w) => Ok(Some(decimal_text(w))),
            Err(e) => Err(e),
        },
        Token::Height => match item.height() {
            Ok(h) => Ok(Some(decimal_text(h))),
            Err(e) => Err(e),
        },
        Token::Unknown => Ok(None),
    }
}

/// What one part contributes.
fn resolve_one(p: &Part, item: &Item) -> (r: Result<Option<String>, ItemError>)
    ensures
        text_view(r) == resolve_part(p@, *item),
{
    match p {
        Part::Text(t) => Ok(Some(t.clone())),
        Part::Variable(v) => resolve_variable(v, item),
    }
}

/// The path segment that a component renders to, if any.
pub fn render_component(ps: &Vec<Part>, item: &Item) -> (r: Result<Option<String>, ItemError>)
    ensures
        match resolve_parts(parts_view(ps@), *item) {
            Err(e) => r == Err::<Option<String>, ItemError>(e),
            Ok(os) => text_view(r) == Ok::<Option<Seq<char>>, ItemError>(segment(os)),
        },
{
    let ghost pv = parts_view(ps@);
    let mut text = String::new();
    let mut all = true;
    let ghost mut os: Seq<Option<Seq<char>>> = Seq::empty();
    let mut i: usize = 0;
    while i < ps.len()
        invariant
            pv == parts_view(ps@),
            i <= pv.len(),
            resolve_parts(pv.subrange(0, i as int), *item) == Ok::<
                Seq<Option<Seq<char>>>,
                ItemError,
            >(os),
            os.len() == i,
            all == (forall|k: int| 0 <= k < os.len() ==> contributes(#[trigger] os[k])),
            text@ == joined(os),
        decreases pv.len() - i,
    {
        let ghost pre = pv.subrange(0, i as int);
        assert(pv.subrange(0, i + 1).drop_last() =~= pre);
        assert(pv.subrange(0, i + 1).last() == ps@[i as int]@);
        match resolve_one(&ps[i], item) {
            Err(e) => {
                proof {
                    lemma_resolve_parts_prefix_err(pv, i + 1, *item);
                }
                return Err(e);
            },
            Ok(None) => {
                all = false;
                proof {
                    let old_os = os;
                    os = os.push(None);
                    assert(os.drop_last() =~= old_os);
                    assert(!contributes(os[os.len() - 1]));
                    assert(joined(os) =~= joined(old_os));
                }
            },
            Ok(Some(t)) => {
                if t.as_str().is_empty() {
                    all = false;
                }
                text.append(t.as_str());
                proof {
                    let old_os = os;
                    os = os.push(Some(t@));
                    assert(os.drop_last() =~= old_os);
                    assert(os[os.len() - 1] == Some(t@));
                    if all {
                        assert forall|k: int| 0 <= k < os.len() implies contributes(
                            #[trigger] os[k],
                        ) by {
                            if k < old_os.len() {
                                assert(os[k] == old_os[k]);
                            }
                        }
                    }
                }
            },
        }
        i = i + 1;
    }
    assert(pv.subrange(0, pv.len() as int) =~= pv);
    if all && ps.len() > 0 {
        Ok(Some(text))
    } else {
        Ok(None)
    }
}

proof fn lemma_resolve_parts_prefix_err(ps: Seq<PartView>, k: int, item: Item)
    requires
        0 <= k <= ps.len(),
        resolve_parts(ps.subrange(0, k), item) is Err,
    ensures
        resolve_parts(ps, item) == resolve_parts(ps.subrange(0, k), item),
    decreases ps.len(),
{
    if k < ps.len() {
        let d = ps.drop_last();
        assert(d.subrange(0, k) =~= ps.subrange(0, k));
        lemma_resolve_parts_prefix_err(d, k, item);
    } else {
        assert(ps.subrange(0, k) =~= ps);
    }
}

proof fn lemma_render_prefix_err(t: Seq<Seq<PartView>>, k: int, item: Item)
    requires
        0 <= k <= t.len(),
        render_spec(t.subrange(0, k), item) is Err,
    ensures
        render_spec(t, item) == render_spec(t.subrange(0, k), item),
    decreases t.len(),
{
    if k < t.len() {
        let d = t.drop_last();
        assert(d.subrange(0, k) =~= t.subrange(0, k));
        lemma_render_prefix_err(d, k, item);
    } else {
        assert(t.subrange(0, k) =~= t);
    }
}

/// The path segments that template `t` renders to for `item`.
pub fn render(t: &Template, item: &Item) -> (r: Result<Vec<String>, ItemError>)
    ensures
        match render_spec(t@, *item) {
            Err(e) => r == Err::<Vec<String>, ItemError>(e),
            Ok(segs) => r matches Ok(v) && strings_view(v@) == segs,
        },
{
    let ghost tv = t@;
    let mut out: Vec<String> = Vec::new();
    let mut i: usize = 0;
    assert(strings_view(out@) =~= Seq::<Seq<char>>::empty());
    assert(tv.subrange(0, 0) =~= Seq::<Seq<PartView>>::empty());
    while i < t.components.len()
        invariant
            tv == t@,
            i <= tv.len(),
            render_spec(tv.subrange(0, i as int), *item) == Ok::<Seq<Seq<char>>, ItemError>(
                strings_view(out@),
            ),
        decreases tv.len() - i,
    {
        let ghost pre = tv.subrange(0, i as int);
        assert(tv.subrange(0, i + 1).drop_last() =~= pre);
        assert(tv.subrange(0, i + 1).last() == parts_view(t.components@[i as int]@));
        let ghost before = strings_view(out@);
        match render_component(&t.components[i], item) {
            Err(e) => {
                proof {
                    lemma_render_prefix_err(tv, i + 1, *item);
                }
                return Err(e);
            },
            Ok(None) => {},
            Ok(Some(s)) => {
                out.push(s);
                assert(strings_view(out@) =~= before.push(s@));
            },
        }
        i = i + 1;
    }
    assert(tv.subrange(0, tv.len() as int) =~= tv);
    Ok(out)
}

/// Parses `pattern` and renders it for `item` into path segments, in order.
pub fn parse_pattern(pattern: &str, item: &Item) -> (r: Result<Vec<String>, AppError>)
    ensures
        match outcome(pattern@, *item) {
            Ok(segs) => r matches Ok(v) && strings_view(v@) == segs,
            Err(e) => r == Err::<Vec<String>, AppError>(e),
        },
{
    match Template::parse(pattern) {
        None => Err(AppError::Pattern),
        Some(t) => match render(&t, item) {
            Ok(v) => Ok(v),
            Err(e) => Err(AppError::from_item(e)),
        },
    }
}

} // verus!
