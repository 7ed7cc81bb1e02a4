//! Filtering paths by the base name and by the kind of object.
use vstd::prelude::*;

use crate::names::{file_name, file_name_of};
use crate::regex_builder::Pattern;
use crate::scan_result::views;

verus! {

/// What the filesystem reports about the object a path names, the path
/// itself and not the target of a link: a symbolic link is its own kind of
/// object, whatever it points to.
#[derive(Debug, Clone, Copy, PartialEq, Eq, Structural)]
pub struct ObjectKind {
    pub is_dir: bool,
    pub is_file: bool,
    pub is_symlink: bool,
}

/// The three type flags are all set or all unset: every kind is eligible.
pub open spec fn filters_nothing(dirs: bool, files: bool, symlinks: bool) -> bool {
    files == dirs && dirs == symlinks
}

/// Whether an object of `kind` is eligible under the type flags: every
/// kind when the flags are all equal, otherwise exactly the kinds whose own
/// flag is set (a link by the link flag alone).
pub open spec fn eligible(kind: ObjectKind, dirs: bool, files: bool, symlinks: bool) -> bool {
    filters_nothing(dirs, files, symlinks) || if kind.is_symlink {
        symlinks
    } else {
        !((!dirs && kind.is_dir) || (!files && kind.is_file))
    }
}

/// Whether the type flags admit every kind of object, so that the kinds of
/// the paths need not be looked up.
pub fn admits_every_kind(dirs: bool, files: bool, symlinks: bool) -> (r: bool)
    ensures
        r == filters_nothing(dirs, files, symlinks),
{
    files == dirs && dirs == symlinks
}

/// Whether an object of `kind` is eligible under the type flags.
pub fn is_eligible(kind: ObjectKind, dirs: bool, files: bool, symlinks: bool) -> (r: bool)
    ensures
        r == eligible(kind, dirs, files, symlinks),
{
    if admits_every_kind(dirs, files, symlinks) {
        true
    } else if kind.is_symlink {
        symlinks
    } else {
        !((!dirs && kind.is_dir) || (!files && kind.is_file))
    }
}

/// The base name of a path: its final component, or nothing.
pub open spec fn base_name_of(path: Seq<char>) -> Seq<char> {
    match file_name_of(path) {
        Some(name) => name,
        None => Seq::empty(),
    }
}

/// The paths among the first `n` that are eligible and whose base name the
/// pattern matches, in their order.
pub open spec fn selected(
    paths: Seq<Seq<char>>,
    kinds: Seq<ObjectKind>,
    reg: Pattern,
    dirs: bool,
    files: bool,
    symlinks: bool,
    n: int,
) -> Seq<Seq<char>>
    decreases n,
{
    if n <= 0 {
        Seq::empty()
    } else {
        let before = selected(paths, kinds, reg, dirs, files, symlinks, n - 1);
        if eligible(kinds[n - 1], dirs, files, symlinks) && reg.accepts(
            base_name_of(paths[n - 1]),
        ) {
            before.push(paths[n - 1])
        } else {
            before
        }
    }
}

/// The base name of `path`, empty when it has none.
pub fn base_name(path: &str) -> (r: String)
    ensures
        r@ == base_name_of(path@),
{
    match file_name(path) {
        Some(name) => name,
        None => String::new(),
    }
}

/// The paths, in order, whose base name `reg` matches and whose kind the
/// type flags admit. `kinds[i]` describes `paths[i]`; it is not read when
/// the flags are all equal, and may then be left empty.
pub fn search_buffer(
    paths: &[String],
    kinds: &[ObjectKind],
    reg: &Pattern,
    dirs: bool,
    files: bool,
    symlinks: bool,
) -> (r: Vec<String>)
    requires
        filters_nothing(dirs, files, symlinks) || kinds@.len() == paths@.len(),
    ensures
        views(r@) == selected(views(paths@), kinds@, *reg, dirs, files, symlinks, paths@.len() as int),
{
    let mut matches: Vec<String> = Vec::new();
    let all = admits_every_kind(dirs, files, symlinks);
    let mut i: usize = 0;
    assert(views(matches@) =~= Seq::<Seq<char>>::empty());
    while i < paths.len()
        invariant
            i <= paths@.len(),
            all == filters_nothing(dirs, files, symlinks),
            all || kinds@.len() == paths@.len(),
            views(matches@) == selected(views(paths@), kinds@, *reg, dirs, files, symlinks, i as int),
        decreases paths@.len() - i,
    {
        let path = &paths[i];
        let keep = if all {
            true
        } else {
            is_eligible(kinds[i], dirs, files, symlinks)
        };
        if keep {
            let name = base_name(path.as_str());
            if reg.is_match(name.as_str()) {
                matches.push(path.clone());
            }
        }
        assert(views(paths@)[i as int] == paths@[i as int]@);
        assert(views(matches@) =~= selected(views(paths@), kinds@, *reg, dirs, files, symlinks, i + 1));
        i = i + 1;
    }
    matches
}

/// With the type flags all unset or all set, a search selects the same
/// paths: both mean that every kind of object is eligible.
pub proof fn lemma_no_filter_is_all_filters(
    paths: Seq<Seq<char>>,
    kinds: Seq<ObjectKind>,
    reg: Pattern,
    n: int,
)
    ensures
        selected(paths, kinds, reg, false, false, false, n) == selected(
            paths,
            kinds,
            reg,
            true,
            true,
            true,
            n,
        ),
    decreases n,
{
    if n > 0 {
        lemma_no_filter_is_all_filters(paths, kinds, reg, n - 1);
    }
}

} // verus!
