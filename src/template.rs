//! The template grammar: its syntax tree, the grammar stated over character
//! sequences, and the parser that meets it.
//!
//! A template is cut at every `/` into components. A component is a run of
//! literal text and variables `{token[:qualifier[:qualifier]]}`. A qualifier
//! is a specifier, a modifier, or a list of size buckets
//! `name:gt|lt:amount:unit[,name:gt|lt:amount:unit]...`; other qualifier
//! text is accepted and ignored.

use vstd::prelude::*;
use crate::text::{find, split};
use crate::vocabulary::{
    comparator_of, modifier_of, specifier_of, token_of, unit_of, Comparator, Modifier, Specifier,
    Token, Unit,
};

verus! {

/// A named size bucket: a file whose size compares with
/// `amount * unit` as `comparator` says, or equals it, falls in it.
#[derive(Clone, Debug)]
pub struct Threshold {
    pub name: String,
    pub comparator: Comparator,
    pub amount: u64,
    pub unit: Unit,
}

pub struct ThresholdView {
    pub name: Seq<char>,
    pub comparator: Comparator,
    pub amount: nat,
    pub unit: Unit,
}

impl View for Threshold {
    type V = ThresholdView;

    open spec fn view(&self) -> ThresholdView {
        ThresholdView {
            name: self.name@,
            comparator: self.comparator,
            amount: self.amount as nat,
            unit: self.unit,
        }
    }
}

/// One qualifier slot of a variable.
#[derive(Clone, Debug)]
pub enum Qualifier {
    Specifier(Specifier),
    Modifier(Modifier),
    Thresholds(Vec<Threshold>),
    Ignored,
}

pub enum QualifierView {
    Specifier(Specifier),
    Modifier(Modifier),
    Thresholds(Seq<ThresholdView>),
    Ignored,
}

pub open spec fn thresholds_view(ts: Seq<Threshold>) -> Seq<ThresholdView> {
    ts.map_values(|t: Threshold| t@)
}

impl View for Qualifier {
    type V = QualifierView;

    open spec fn view(&self) -> QualifierView {
        match self {
            Qualifier::Specifier(s) => QualifierView::Specifier(*s),
            Qualifier::Modifier(m) => QualifierView::Modifier(*m),
            Qualifier::Thresholds(ts) => QualifierView::Thresholds(thresholds_view(ts@)),
            Qualifier::Ignored => QualifierView::Ignored,
        }
    }
}

/// A variable: its token and at most two qualifiers, in written order.
#[derive(Clone, Debug)]
pub struct Variable {
    pub token: Token,
    pub qualifiers: Vec<Qualifier>,
}

pub struct VariableView {
    pub token: Token,
    pub qualifiers: Seq<QualifierView>,
}

pub open spec fn qualifiers_view(qs: Seq<Qualifier>) -> Seq<QualifierView> {
    qs.map_values(|q: Qualifier| q@)
}

impl View for Variable {
    type V = VariableView;

    open spec fn view(&self) -> VariableView {
        VariableView { token: self.token, qualifiers: qualifiers_view(self.qualifiers@) }
    }
}

/// One item of a component: literal text or a variable.
#[derive(Clone, Debug)]
pub enum Part {
    Text(String),
    Variable(Variable),
}

pub enum PartView {
    Text(Seq<char>),
    Variable(VariableView),
}

impl View for Part {
    type V = PartView;

    open spec fn view(&self) -> PartView {
        match self {
            Part::Text(t) => PartView::Text(t@),
            Part::Variable(v) => PartView::Variable(v@),
        }
    }
}

pub open spec fn parts_view(ps: Seq<Part>) -> Seq<PartView> {
    ps.map_values(|p: Part| p@)
}

/// A parsed template: its components in order, each a sequence of parts.
#[derive(Clone, Debug)]
pub struct Template {
    pub components: Vec<Vec<Part>>,
}

impl View for Template {
    type V = Seq<Seq<PartView>>;

    open spec fn view(&self) -> Seq<Seq<PartView>> {
        self.components@.map_values(|c: Vec<Part>| parts_view(c@))
    }
}

// ---------------------------------------------------------------------------
// The grammar, over character sequences.

pub open spec fn is_digit(c: char) -> bool {
    '0' <= c <= '9'
}

/// The value of a run of decimal digits.
pub open spec fn digits_value(s: Seq<char>) -> nat
    decreases s.len(),
{
    if s.len() == 0 {
        0
    } else {
        digits_value(s.drop_last()) * 10 + (s.last() as int - '0' as int) as nat
    }
}

/// A bucket amount: one or more digits whose value fits in 64 bits.
pub open spec fn is_amount(f: Seq<char>) -> bool {
    &&& 0 < f.len()
    &&& forall|i: int| 0 <= i < f.len() ==> is_digit(#[trigger] f[i])
    &&& digits_value(f) <= u64::MAX
}

/// Whether the fields begin with a bucket `name:gt|lt:amount:...`.
pub open spec fn opens_bucket(fs: Seq<Seq<char>>) -> bool {
    &&& fs.len() >= 4
    &&& comparator_of(fs[1]) is Some
    &&& is_amount(fs[2])
}

/// A list of buckets at the front of the colon-separated fields `fs`, and the
/// fields after it. The fourth field of a bucket holds its unit, and where a
/// comma follows the unit, the name of the next bucket after the comma.
pub open spec fn bucket_list(fs: Seq<Seq<char>>) -> Option<(Seq<ThresholdView>, Seq<Seq<char>>)>
    decreases fs.len(),
{
    if !opens_bucket(fs) {
        None
    } else {
        let last = fs[3];
        let k = find(last, ',') as int;
        let rest = fs.subrange(4, fs.len() as int);
        let t = ThresholdView {
            name: fs[0],
            comparator: comparator_of(fs[1])->0,
            amount: digits_value(fs[2]),
            unit: unit_of(last.subrange(0, k)),
        };
        if k >= last.len() {
            Some((seq![t], rest))
        } else if k == 0 || k + 1 == last.len() {
            None
        } else {
            match bucket_list(seq![last.subrange(k + 1, last.len() as int)] + rest) {
                Some((ts, after)) => Some((seq![t] + ts, after)),
                None => None,
            }
        }
    }
}

pub proof fn lemma_bucket_list_rest(fs: Seq<Seq<char>>)
    ensures
        bucket_list(fs) matches Some((ts, rest)) ==> rest.len() + 4 <= fs.len(),
    decreases fs.len(),
{
    if opens_bucket(fs) {
        let last = fs[3];
        let k = find(last, ',') as int;
        let rest = fs.subrange(4, fs.len() as int);
        if k < last.len() && k != 0 && k + 1 != last.len() {
            lemma_bucket_list_rest(seq![last.subrange(k + 1, last.len() as int)] + rest);
        }
    }
}

/// A single field as a qualifier: a specifier or modifier word, or ignored.
pub open spec fn qualifier_of(f: Seq<char>) -> QualifierView {
    if specifier_of(f) != Specifier::Unknown {
        QualifierView::Specifier(specifier_of(f))
    } else if modifier_of(f) != Modifier::Unknown {
        QualifierView::Modifier(modifier_of(f))
    } else {
        QualifierView::Ignored
    }
}

/// The qualifiers that the fields after a token spell, a bucket list taking
/// precedence over a single field.
pub open spec fn qualifier_list(fs: Seq<Seq<char>>) -> Option<Seq<QualifierView>>
    decreases fs.len(),
{
    if fs.len() == 0 {
        Some(Seq::empty())
    } else if opens_bucket(fs) {
        match bucket_list(fs) {
            Some((ts, rest)) => {
                proof {
                    lemma_bucket_list_rest(fs);
                }
                match qualifier_list(rest) {
                    Some(qs) => Some(seq![QualifierView::Thresholds(ts)] + qs),
                    None => None,
                }
            },
            None => None,
        }
    } else {
        match qualifier_list(fs.drop_first()) {
            Some(qs) => Some(seq![qualifier_of(fs[0])] + qs),
            None => None,
        }
    }
}

/// The variable written between braces as `body`: colon-separated fields,
/// none empty, the first naming the token, and at most two qualifiers.
pub open spec fn variable_of(body: Seq<char>) -> Option<VariableView> {
    let fs = split(body, ':');
    if exists|i: int| 0 <= i < fs.len() && (#[trigger] fs[i]).len() == 0 {
        None
    } else {
        match qualifier_list(fs.drop_first()) {
            Some(qs) => if qs.len() <= 2 {
                Some(VariableView { token: token_of(fs[0]), qualifiers: qs })
            } else {
                None
            },
            None => None,
        }
    }
}

pub open spec fn is_brace(c: char) -> bool {
    c == '{' || c == '}'
}

/// Length of the literal text at the front of `c`.
pub open spec fn text_len(c: Seq<char>) -> nat
    decreases c.len(),
{
    if c.len() == 0 || is_brace(c[0]) {
        0
    } else {
        1 + text_len(c.drop_first())
    }
}

pub proof fn lemma_text_len(c: Seq<char>)
    ensures
        text_len(c) <= c.len(),
        text_len(c) < c.len() ==> is_brace(c[text_len(c) as int]),
        forall|i: int| 0 <= i < text_len(c) ==> !is_brace(c[i]),
    decreases c.len(),
{
    if c.len() > 0 && !is_brace(c[0]) {
        lemma_text_len(c.drop_first());
        assert forall|i: int| 0 <= i < text_len(c) implies !is_brace(c[i]) by {
            if i > 0 {
                assert(c[i] == c.drop_first()[i - 1]);
            }
        }
    }
}

/// The parts of one component: maximal runs of literal text, and variables
/// each closed by the first `}` after its `{`, with no `{` inside.
pub open spec fn parts_of(c: Seq<char>) -> Option<Seq<PartView>>
    decreases c.len(),
{
    if c.len() == 0 {
        Some(Seq::empty())
    } else if c[0] == '{' {
        let j = find(c, '}') as int;
        let body = c.subrange(1, j);
        if j >= c.len() || find(body, '{') < body.len() {
            None
        } else {
            match variable_of(body) {
                Some(v) => match parts_of(c.subrange(j + 1, c.len() as int)) {
                    Some(ps) => Some(seq![PartView::Variable(v)] + ps),
                    None => None,
                },
                None => None,
            }
        }
    } else if c[0] == '}' {
        None
    } else {
        let j = text_len(c) as int;
        proof {
            lemma_text_len(c);
        }
        match parts_of(c.subrange(j, c.len() as int)) {
            Some(ps) => Some(seq![PartView::Text(c.subrange(0, j))] + ps),
            None => None,
        }
    }
}

/// The template that `s` spells, or `None` where `s` is malformed.
pub open spec fn template_of(s: Seq<char>) -> Option<Seq<Seq<PartView>>> {
    let cs = split(s, '/');
    if forall|i: int| 0 <= i < cs.len() ==> (#[trigger] parts_of(cs[i])) is Some {
        Some(cs.map_values(|c: Seq<char>| parts_of(c)->0))
    } else {
        None
    }
}

} // verus!
