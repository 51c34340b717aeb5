//! Jobs: a source directory, a destination and a template.

use vstd::prelude::*;
use vstd::string::*;
use crate::error::AppError;
use crate::item::{kept_name, Item};
use crate::render::{outcome, parse_pattern, strings_view};
use crate::text::push_char;

verus! {

/// A job renders its pattern for each entry of its source directory to find
/// where the entry belongs under its destination.
#[derive(Clone, Debug)]
pub struct Job {
    pub name: String,
    pub source: String,
    pub destination: Option<String>,
    pub pattern: String,
    pub recursive: Option<bool>,
    pub watch: Option<bool>,
}

/// A list of jobs.
#[derive(Clone, Debug)]
pub struct Jobs {
    pub jobs: Vec<Job>,
}

/// Segments joined with `/`.
pub open spec fn joined_path(segs: Seq<Seq<char>>) -> Seq<char>
    decreases segs.len(),
{
    if segs.len() == 0 {
        Seq::empty()
    } else if segs.len() == 1 {
        segs[0]
    } else {
        joined_path(segs.drop_last()) + seq!['/'] + segs.last()
    }
}

impl Job {
    pub open spec fn base(&self) -> Seq<char> {
        match self.destination {
            Some(d) => d@,
            None => self.source@,
        }
    }

    /// Creates a job; without a destination, entries are organised in place.
    pub fn new(
        name: &str,
        source: &str,
        destination: Option<&str>,
        pattern: &str,
        recursive: bool,
        watch: bool,
    ) -> (r: Job)
        ensures
            r.name@ == name@,
            r.source@ == source@,
            r.destination matches Some(d) && d@ == match destination {
                Some(d) => d@,
                None => source@,
            },
            r.pattern@ == pattern@,
            r.recursive == Some(recursive),
            r.watch == Some(watch),
    {
        let dest = match destination {
            Some(d) => d,
            None => source,
        };
        Job {
            name: String::from_str(name),
            source: String::from_str(source),
            destination: Some(String::from_str(dest)),
            pattern: String::from_str(pattern),
            recursive: Some(recursive),
            watch: Some(watch),
        }
    }

    /// Where `item` goes: the destination, the rendered pattern and the
    /// entry's name, joined with `/`.
    pub fn target(&self, item: &Item) -> (r: Result<String, AppError>)
        ensures
            match outcome(self.pattern@, *item) {
                Ok(segs) => r matches Ok(s) && s@ == self.base() + seq!['/'] + joined_path(segs)
                    + seq!['/'] + kept_name(*item),
                Err(e) => r == Err::<String, AppError>(e),
            },
    {
        let segs = match parse_pattern(self.pattern.as_str(), item) {
            Ok(s) => s,
            Err(e) => {
                return Err(e);
            },
        };
        let mut r = match &self.destination {
            Some(d) => d.clone(),
            None => self.source.clone(),
        };
        push_char(&mut r, '/');
        let ghost head = r@;
        let ghost sv = strings_view(segs@);
        let mut i: usize = 0;
        while i < segs.len()
            invariant
                sv == strings_view(segs@),
                i <= sv.len(),
                r@ == head + joined_path(sv.subrange(0, i as int)),
            decreases sv.len() - i,
        {
            assert(sv.subrange(0, i + 1).drop_last() =~= sv.subrange(0, i as int));
            if i > 0 {
                push_char(&mut r, '/');
            }
            r.append(segs[i].as_str());
            assert(r@ =~= head + joined_path(sv.subrange(0, i + 1)));
            i = i + 1;
        }
        assert(sv.subrange(0, sv.len() as int) =~= sv);
        push_char(&mut r, '/');
        r.append(item.entry_name().as_str());
        Ok(r)
    }
}

impl Jobs {
    /// Runs each job in order with `run`, stopping at the first failure and
    /// returning it.
    pub fn run_all<F: Fn(&Job) -> Result<(), AppError>>(&self, run: F) -> (r: Result<
        (),
        AppError,
    >)
        requires
            forall|i: int| 0 <= i < self.jobs@.len() ==> run.requires((&self.jobs@[i],)),
        ensures
            r is Ok ==> forall|i: int|
                0 <= i < self.jobs@.len() ==> run.ensures((&self.jobs@[i],), Ok(())),
            r matches Err(e) ==> exists|i: int|
                0 <= i < self.jobs@.len() && run.ensures((&self.jobs@[i],), Err(e)) && forall|
                    j: int,
                | 0 <= j < i ==> run.ensures((&self.jobs@[j],), Ok(())),
    {
        let mut i: usize = 0;
        while i < self.jobs.len()
            invariant
                i <= self.jobs@.len(),
                forall|k: int| 0 <= k < self.jobs@.len() ==> run.requires((&self.jobs@[k],)),
                forall|j: int| 0 <= j < i ==> run.ensures((&self.jobs@[j],), Ok(())),
            decreases self.jobs@.len() - i,
        {
            let res = run(&self.jobs[i]);
            if let Err(e) = res {
                return Err(e);
            }
            let ghost u: () = res->Ok_0;
            assert(res == Ok::<(), AppError>(u));
            i = i + 1;
        }
        Ok(())
    }
}

} // verus!
