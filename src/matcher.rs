//! The exception and target decisions for paths relative to the scan root.

use vstd::prelude::*;
use crate::paths::{join_prefix, join, join_spec};
use crate::pattern::{InvalidPattern, PatternSet, set_finds};

verus! {

/// The four pattern sets that decide what is cleaned and what is protected.
pub struct PatternMatcher {
    pub file_targets: PatternSet,
    pub dir_targets: PatternSet,
    pub file_exceptions: PatternSet,
    pub dir_exceptions: PatternSet,
}

/// The ancestor of `parts` made of its first `k` components matches a
/// directory exception.
pub open spec fn protected_at(m: &PatternMatcher, parts: Seq<Seq<char>>, k: int) -> bool {
    set_finds(m.dir_exceptions@, join_spec(parts.take(k)))
}

/// A path is an exception when a directory exception matches the path itself
/// (for a directory) or any of its ancestors up to the root, or when it is a
/// file that a file exception matches.
pub open spec fn exception_spec(m: &PatternMatcher, parts: Seq<Seq<char>>, is_dir: bool) -> bool {
    if is_dir {
        exists|k: int| 0 <= k <= parts.len() && #[trigger] protected_at(m, parts, k)
    } else {
        set_finds(m.file_exceptions@, join_spec(parts))
        || exists|k: int| 0 <= k < parts.len() && #[trigger] protected_at(m, parts, k)
    }
}

/// A path is a clean target when the target set of its kind matches it.
pub open spec fn clean_spec(m: &PatternMatcher, parts: Seq<Seq<char>>, is_dir: bool) -> bool {
    if is_dir {
        set_finds(m.dir_targets@, join_spec(parts))
    } else {
        set_finds(m.file_targets@, join_spec(parts))
    }
}

/// A path is selected when it is a target and no exception protects it.
pub open spec fn selected_spec(m: &PatternMatcher, parts: Seq<Seq<char>>, is_dir: bool) -> bool {
    !exception_spec(m, parts, is_dir) && clean_spec(m, parts, is_dir)
}

impl PatternMatcher {
    /// Compiles the four pattern lists; the error names the first invalid
    /// pattern, looking at the lists in this order.
    pub fn new(
        file_patterns: &Vec<String>,
        dir_patterns: &Vec<String>,
        exception_files: &Vec<String>,
        exception_dirs: &Vec<String>,
    ) -> (r: Result<PatternMatcher, InvalidPattern>)
        ensures
            r is Ok ==> r->Ok_0.file_targets@ == file_patterns.deep_view()
                && r->Ok_0.dir_targets@ == dir_patterns.deep_view()
                && r->Ok_0.file_exceptions@ == exception_files.deep_view()
                && r->Ok_0.dir_exceptions@ == exception_dirs.deep_view(),
            r is Ok <==> (all_valid(file_patterns) && all_valid(dir_patterns)
                && all_valid(exception_files) && all_valid(exception_dirs)),
    {
        let file_targets = PatternSet::compile(file_patterns)?;
        let dir_targets = PatternSet::compile(dir_patterns)?;
        let file_exceptions = PatternSet::compile(exception_files)?;
        let dir_exceptions = PatternSet::compile(exception_dirs)?;
        Ok(PatternMatcher { file_targets, dir_targets, file_exceptions, dir_exceptions })
    }

    /// Whether `path` (relative to the scan root) is protected by an exception.
    pub fn is_exception(&self, path: &Vec<String>, is_dir: bool) -> (r: bool)
        ensures
            r == exception_spec(self, path.deep_view(), is_dir),
    {
        let n = path.len();
        if !is_dir {
            let leaf = join(path);
            if self.file_exceptions.any_match(leaf.as_str()) {
                return true;
            }
        }
        let top: usize = if is_dir { n } else if n == 0 { 0 } else { n - 1 };
        if !is_dir && n == 0 {
            return false;
        }
        let mut k: usize = top;
        loop
            invariant
                k <= top,
                top <= n,
                n == path@.len(),
                is_dir ==> top == n,
                !is_dir ==> top + 1 == n,
                !is_dir ==> !set_finds(self.file_exceptions@, join_spec(path.deep_view())),
                forall|j: int| k < j <= top ==> !#[trigger] protected_at(self, path.deep_view(), j),
            decreases k,
        {
            let ancestor = join_prefix(path, k);
            if self.dir_exceptions.any_match(ancestor.as_str()) {
                assert(protected_at(self, path.deep_view(), k as int));
                return true;
            }
            if k == 0 {
                assert(!protected_at(self, path.deep_view(), 0));
                return false;
            }
            k = k - 1;
        }
    }

    /// Whether `path` (relative to the scan root) matches a target pattern of its kind.
    pub fn should_clean(&self, path: &Vec<String>, is_dir: bool) -> (r: bool)
        ensures
            r == clean_spec(self, path.deep_view(), is_dir),
    {
        let s = join(path);
        if is_dir {
            self.dir_targets.any_match(s.as_str())
        } else {
            self.file_targets.any_match(s.as_str())
        }
    }

    /// Whether `path` is a target that no exception protects.
    pub fn is_selected(&self, path: &Vec<String>, is_dir: bool) -> (r: bool)
        ensures
            r == selected_spec(self, path.deep_view(), is_dir),
    {
        !self.is_exception(path, is_dir) && self.should_clean(path, is_dir)
    }
}

/// Every text of `sources` is an accepted regular expression.
pub open spec fn all_valid(sources: &Vec<String>) -> bool {
    forall|i: int| 0 <= i < sources@.len() ==> crate::pattern::regex_accepts(#[trigger] sources@[i]@)
}

} // verus!
