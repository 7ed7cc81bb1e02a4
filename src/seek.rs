//! Matching by stem and extension over a list of paths.
use vstd::prelude::*;

use crate::names::{
    contains, eq_ignore_ascii_case, equal_ignoring_ascii_case, extension, extension_of, file_stem,
    file_stem_of, lower_of, occurs_in, to_lowercase,
};
use crate::scan_result::views;

use vstd::string::StringExecFns;

verus! {

/// A part of a path, empty when the path has none.
pub open spec fn part_or_empty(part: Option<Seq<char>>) -> Seq<char> {
    match part {
        Some(p) => p,
        None => Seq::empty(),
    }
}

/// Whether `path` answers a stem-and-extension query whose parts are
/// already lowercase: with `exact`, stem and extension equal them up to
/// ASCII case; otherwise the lowercase stem and extension contain them.
pub open spec fn stem_matches(path: Seq<char>, object: Seq<char>, ext: Seq<char>, exact: bool) -> bool {
    let stem = part_or_empty(file_stem_of(path));
    let extension = part_or_empty(extension_of(path));
    if exact {
        equal_ignoring_ascii_case(stem, object) && equal_ignoring_ascii_case(extension, ext)
    } else {
        occurs_in(lower_of(stem), object) && occurs_in(lower_of(extension), ext)
    }
}

/// The paths among the first `n` that answer the query, in their order.
pub open spec fn stem_hits(
    paths: Seq<Seq<char>>,
    object: Seq<char>,
    ext: Seq<char>,
    exact: bool,
    n: int,
) -> Seq<Seq<char>>
    decreases n,
{
    if n <= 0 {
        Seq::empty()
    } else if stem_matches(paths[n - 1], object, ext, exact) {
        stem_hits(paths, object, ext, exact, n - 1).push(paths[n - 1])
    } else {
        stem_hits(paths, object, ext, exact, n - 1)
    }
}

/// The answer to a query: the matching paths, or nothing when none match.
pub open spec fn answers(r: Option<Vec<String>>, hits: Seq<Seq<char>>) -> bool {
    match r {
        Some(v) => hits.len() > 0 && views(v@) == hits,
        None => hits.len() == 0,
    }
}

fn part(p: Option<String>) -> (r: String)
    ensures
        r@ == part_or_empty(
            match p {
                Some(s) => Some(s@),
                None => None,
            },
        ),
{
    match p {
        Some(s) => s,
        None => String::new(),
    }
}

/// Whether `path` answers the query with lowercase parts `object` and
/// `ext`.
fn path_matches(path: &str, object: &str, ext: &str, exact: bool) -> (r: bool)
    ensures
        r == stem_matches(path@, object@, ext@, exact),
{
    let stem = part(file_stem(path));
    let extension = part(extension(path));
    if exact {
        eq_ignore_ascii_case(stem.as_str(), object) && eq_ignore_ascii_case(
            extension.as_str(),
            ext,
        )
    } else {
        let stem = to_lowercase(stem.as_str());
        let extension = to_lowercase(extension.as_str());
        contains(stem.as_str(), object) && contains(extension.as_str(), ext)
    }
}

/// The paths answering the query, in order, or nothing.
fn collect_hits(paths: &[String], object: &str, ext: &str, exact: bool) -> (r: Option<Vec<String>>)
    ensures
        answers(r, stem_hits(views(paths@), object@, ext@, exact, paths@.len() as int)),
{
    let mut results: Vec<String> = Vec::new();
    let mut i: usize = 0;
    assert(views(results@) =~= Seq::<Seq<char>>::empty());
    while i < paths.len()
        invariant
            i <= paths@.len(),
            views(results@) == stem_hits(views(paths@), object@, ext@, exact, i as int),
        decreases paths@.len() - i,
    {
        if path_matches(paths[i].as_str(), object, ext, exact) {
            results.push(paths[i].clone());
        }
        assert(views(paths@)[i as int] == paths@[i as int]@);
        assert(views(results@) =~= stem_hits(views(paths@), object@, ext@, exact, i + 1));
        i = i + 1;
    }
    if results.len() == 0 {
        None
    } else {
        Some(results)
    }
}

/// A starting directory and the paths found beneath it.
pub struct Seek {
    hint: String,
    objects: Vec<String>,
}

impl Seek {
    /// The starting directory.
    pub closed spec fn spec_hint(&self) -> Seq<char> {
        self.hint@
    }

    /// The paths found so far.
    pub closed spec fn spec_objects(&self) -> Seq<String> {
        self.objects@
    }

    /// Starts from `hint`, with nothing found yet.
    pub fn new(hint: &str) -> (r: Seek)
        ensures
            r.spec_hint() == hint@,
            r.spec_objects().len() == 0,
    {
        Seek { hint: String::from_str(hint), objects: Vec::new() }
    }

    /// The starting directory.
    pub fn hint(&self) -> (r: &str)
        ensures
            r@ == self.spec_hint(),
    {
        self.hint.as_str()
    }

    /// The paths found so far.
    pub fn objects(&self) -> (r: &Vec<String>)
        ensures
            r@ == self.spec_objects(),
    {
        &self.objects
    }

    /// Replaces the paths found with those of a new scan.
    pub fn set_objects(&mut self, objects: Vec<String>)
        ensures
            final(self).spec_objects() == objects@,
            final(self).spec_hint() == old(self).spec_hint(),
    {
        self.objects = objects;
    }

    /// The found paths whose stem and extension answer the query, or nothing
    /// when none do. Both parts of the query are lowercased first; with
    /// `exact`, a path's stem and extension must equal them up to ASCII case,
    /// otherwise its lowercase stem and extension must contain them. Pass an
    /// empty extension for directories.
    pub fn search(&self, object: &str, extension: &str, exact: bool) -> (r: Option<Vec<String>>)
        ensures
            answers(
                r,
                stem_hits(
                    views(self.spec_objects()),
                    lower_of(object@),
                    lower_of(extension@),
                    exact,
                    self.spec_objects().len() as int,
                ),
            ),
    {
        let object_lowercase = to_lowercase(object);
        let extension_lowercase = to_lowercase(extension);
        collect_hits(
            self.objects.as_slice(),
            object_lowercase.as_str(),
            extension_lowercase.as_str(),
            exact,
        )
    }
}

/// The texts among the entries of a cached `data` array, in order; entries
/// that are not texts are skipped.
pub open spec fn texts(data: Seq<Option<String>>) -> Seq<String>
    decreases data.len(),
{
    if data.len() == 0 {
        Seq::empty()
    } else {
        match data.last() {
            Some(s) => texts(data.drop_last()).push(s),
            None => texts(data.drop_last()),
        }
    }
}

/// Answers a stem-and-extension query, as `Seek::search` does, over the
/// entries of a cached `data` array, given as the texts they hold (`None`
/// for an entry that is not a text).
pub fn search_value(data: &[Option<String>], object: &str, extension: &str, exact: bool) -> (r:
    Option<Vec<String>>)
    ensures
        answers(
            r,
            stem_hits(
                views(texts(data@)),
                lower_of(object@),
                lower_of(extension@),
                exact,
                texts(data@).len() as int,
            ),
        ),
{
    let mut entries: Vec<String> = Vec::new();
    let mut i: usize = 0;
    while i < data.len()
        invariant
            i <= data@.len(),
            entries@ == texts(data@.take(i as int)),
        decreases data@.len() - i,
    {
        assert(data@.take(i + 1).drop_last() =~= data@.take(i as int));
        match &data[i] {
            Some(text) => entries.push(text.clone()),
            None => {},
        }
        i = i + 1;
    }
    assert(data@.take(data@.len() as int) =~= data@);
    let object_lowercase = to_lowercase(object);
    let extension_lowercase = to_lowercase(extension);
    collect_hits(entries.as_slice(), object_lowercase.as_str(), extension_lowercase.as_str(), exact)
}

} // verus!
