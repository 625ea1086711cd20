use vstd::prelude::*;

use crate::error::Error;
use crate::image::MinImage;
use crate::imgdiff::{compare_images, is_comparison, ImageDifference};
use crate::names::{name_lt, strictly_sorted};
use std::path::{Path, PathBuf};

verus! {

#[verifier::external_type_specification]
#[verifier::external_body]
pub struct ExPath(std::path::Path);

/// Relies on `PathBuf::as_path`, which borrows the path; nothing is claimed of it.
pub assume_specification[ std::path::PathBuf::as_path ](p: &PathBuf) -> &Path;

/// Relies on `PathBuf`'s `Clone`, which copies the path; nothing is claimed of it.
pub assume_specification[ <std::path::PathBuf as Clone>::clone ](p: &PathBuf) -> PathBuf;

/// Which side of a pair could not be loaded, and why.
#[derive(Debug)]
pub enum LeftRightError {
    Left(Error),
    Right(Error),
    Both(Box<(Error, Error)>),
}

impl LeftRightError {
    /// The error of the left side, if it failed.
    pub open spec fn left_error(&self) -> Option<Error> {
        match self {
            LeftRightError::Left(e) => Some(*e),
            LeftRightError::Both(pair) => Some(pair.0),
            LeftRightError::Right(_) => None,
        }
    }

    /// The error of the right side, if it failed.
    pub open spec fn right_error(&self) -> Option<Error> {
        match self {
            LeftRightError::Right(e) => Some(*e),
            LeftRightError::Both(pair) => Some(pair.1),
            LeftRightError::Left(_) => None,
        }
    }

    pub open spec fn left_missing(&self) -> bool {
        self.left_error() matches Some(Error::FileNotFound(_))
    }

    pub open spec fn right_missing(&self) -> bool {
        self.right_error() matches Some(Error::FileNotFound(_))
    }

    pub fn left(&self) -> (r: Option<&Error>)
        ensures
            match r {
                Some(e) => self.left_error() == Some(*e),
                None => self.left_error() is None,
            },
    {
        match self {
            LeftRightError::Left(e) => Some(e),
            LeftRightError::Both(pair) => Some(&pair.0),
            LeftRightError::Right(_) => None,
        }
    }

    pub fn right(&self) -> (r: Option<&Error>)
        ensures
            match r {
                Some(e) => self.right_error() == Some(*e),
                None => self.right_error() is None,
            },
    {
        match self {
            LeftRightError::Right(e) => Some(e),
            LeftRightError::Both(pair) => Some(&pair.1),
            LeftRightError::Left(_) => None,
        }
    }

    /// The left file was missing.
    pub fn is_left_missing(&self) -> (r: bool)
        ensures
            r == self.left_missing(),
    {
        match self.left() {
            Some(Error::FileNotFound(_)) => true,
            _ => false,
        }
    }

    /// The right file was missing.
    pub fn is_right_missing(&self) -> (r: bool)
        ensures
            r == self.right_missing(),
    {
        match self.right() {
            Some(Error::FileNotFound(_)) => true,
            _ => false,
        }
    }

    /// Exactly one side failed, and it failed because its file was missing.
    pub fn is_missing_file_error(&self) -> (r: bool)
        ensures
            r == (self matches LeftRightError::Left(Error::FileNotFound(_))
                || self matches LeftRightError::Right(Error::FileNotFound(_))),
    {
        match self {
            LeftRightError::Left(Error::FileNotFound(_)) => true,
            LeftRightError::Right(Error::FileNotFound(_)) => true,
            _ => false,
        }
    }
}

/// The outcome of comparing the two files of one pair.
#[derive(Debug)]
pub struct PairResult {
    /// The name of the pair, a path relative to both roots.
    pub title: String,
    pub left: PathBuf,
    pub right: PathBuf,
    pub image_diff: Result<ImageDifference, LeftRightError>,
}

/// Combines the two load outcomes of a pair: the comparison of the two images
/// where both loaded, else the failure of one side or of both.
pub fn compute_pair_diff(
    left: Result<MinImage, Error>,
    right: Result<MinImage, Error>,
) -> (r: Result<ImageDifference, LeftRightError>)
    requires
        left matches Ok(image) ==> image.wf(),
        right matches Ok(image) ==> image.wf(),
    ensures
        match (left, right) {
            (Ok(l), Ok(rt)) => r matches Ok(d) && is_comparison(&l, &rt, d),
            (Err(e), Ok(_)) => r == Err::<ImageDifference, LeftRightError>(LeftRightError::Left(e)),
            (Ok(_), Err(e)) => r == Err::<ImageDifference, LeftRightError>(LeftRightError::Right(e)),
            (Err(e1), Err(e2)) => r == Err::<ImageDifference, LeftRightError>(
                LeftRightError::Both(Box::new((e1, e2))),
            ),
        },
{
    match (left, right) {
        (Ok(left_image), Ok(right_image)) => Ok(compare_images(&left_image, &right_image)),
        (Err(e), Ok(_)) => Err(LeftRightError::Left(e)),
        (Ok(_), Err(e)) => Err(LeftRightError::Right(e)),
        (Err(e1), Err(e2)) => Err(LeftRightError::Both(Box::new((e1, e2)))),
    }
}

/// A result is kept unless the images matched (where matches are dropped) or a
/// side is missing that is to be ignored.
pub open spec fn keeps(
    ignore_match: bool,
    ignore_left_missing: bool,
    ignore_right_missing: bool,
    d: Result<ImageDifference, LeftRightError>,
) -> bool {
    &&& !(ignore_match && d matches Ok(ImageDifference::Identical))
    &&& !(ignore_left_missing && (d matches Err(e) && e.left_missing()))
    &&& !(ignore_right_missing && (d matches Err(e) && e.right_missing()))
}

/// The results of `s` that are kept, in their order.
pub open spec fn kept_results(
    ignore_match: bool,
    ignore_left_missing: bool,
    ignore_right_missing: bool,
    s: Seq<PairResult>,
) -> Seq<PairResult>
    decreases s.len(),
{
    if s.len() == 0 {
        s
    } else {
        let rest = kept_results(
            ignore_match,
            ignore_left_missing,
            ignore_right_missing,
            s.drop_last(),
        );
        if keeps(ignore_match, ignore_left_missing, ignore_right_missing, s.last().image_diff) {
            rest.push(s.last())
        } else {
            rest
        }
    }
}

fn keep_result(
    ignore_match: bool,
    ignore_left_missing: bool,
    ignore_right_missing: bool,
    d: &Result<ImageDifference, LeftRightError>,
) -> (r: bool)
    ensures
        r == keeps(ignore_match, ignore_left_missing, ignore_right_missing, *d),
{
    match d {
        Ok(ImageDifference::Identical) => !ignore_match,
        Ok(_) => true,
        Err(e) => !(ignore_left_missing && e.is_left_missing()) && !(ignore_right_missing
            && e.is_right_missing()),
    }
}

/// Keeps the results that `keeps` accepts, in their order.
fn retain_results(
    results: Vec<PairResult>,
    ignore_match: bool,
    ignore_left_missing: bool,
    ignore_right_missing: bool,
) -> (r: Vec<PairResult>)
    ensures
        r@ == kept_results(ignore_match, ignore_left_missing, ignore_right_missing, results@),
{
    let ghost all = results@;
    let mut rest = results;
    let mut reversed: Vec<PairResult> = Vec::new();
    while rest.len() > 0
        invariant
            all == rest@ + reversed@.reverse(),
        decreases rest@.len(),
    {
        let item = rest.pop().unwrap();
        proof {
            assert(reversed@.push(item).reverse() =~= seq![item] + reversed@.reverse());
        }
        reversed.push(item);
        assert(all =~= rest@ + reversed@.reverse());
    }
    let mut out: Vec<PairResult> = Vec::new();
    let n = reversed.len();
    assert(all.subrange(0, 0) =~= Seq::<PairResult>::empty());
    assert(all.subrange(0, n as int) =~= all);
    while reversed.len() > 0
        invariant
            n == all.len(),
            reversed@.len() <= n,
            reversed@.reverse() == all.subrange(n - reversed@.len(), n as int),
            out@ == kept_results(ignore_match, ignore_left_missing, ignore_right_missing, all.subrange(0, n - reversed@.len())),
        decreases reversed@.len(),
    {
        let ghost i = n - reversed@.len();
        let ghost before = reversed@;
        let item = reversed.pop().unwrap();
        assert(before.reverse()[0] == item);
        assert(item == all[i]);
        assert(all.subrange(0, i + 1).drop_last() =~= all.subrange(0, i));
        if keep_result(ignore_match, ignore_left_missing, ignore_right_missing, &item.image_diff) {
            out.push(item);
        }
        assert(reversed@.reverse() =~= all.subrange(i + 1, n as int)) by {
            assert(before.reverse().drop_first() =~= reversed@.reverse());
        }
    }
    assert(all.subrange(0, n as int) =~= all);
    out
}

/// The configuration of a comparison of two image directories.
#[derive(Debug, Clone)]
pub struct DirDiffConfig {
    left_path: PathBuf,
    right_path: PathBuf,
    ignore_left_missing: bool,
    ignore_right_missing: bool,
    filter_name: Option<String>,
}

impl DirDiffConfig {
    /// The two roots, left and right.
    pub closed spec fn paths(&self) -> (PathBuf, PathBuf) {
        (self.left_path, self.right_path)
    }

    pub closed spec fn ignores_left_missing(&self) -> bool {
        self.ignore_left_missing
    }

    pub closed spec fn ignores_right_missing(&self) -> bool {
        self.ignore_right_missing
    }

    pub closed spec fn filter(&self) -> Option<String> {
        self.filter_name
    }

    /// A comparison of `left_path` with `right_path` that ignores nothing and
    /// filters nothing.
    pub fn new(left_path: PathBuf, right_path: PathBuf) -> (r: Self)
        ensures
            r.paths() == (left_path, right_path),
            !r.ignores_left_missing(),
            !r.ignores_right_missing(),
            r.filter() is None,
    {
        DirDiffConfig {
            left_path,
            right_path,
            ignore_left_missing: false,
            ignore_right_missing: false,
            filter_name: None,
        }
    }

    pub fn left_path(&self) -> &Path {
        self.left_path.as_path()
    }

    pub fn right_path(&self) -> &Path {
        self.right_path.as_path()
    }

    pub fn set_ignore_left_missing(&mut self, value: bool)
        ensures
            final(self).ignores_left_missing() == value,
            final(self).paths() == old(self).paths(),
            final(self).ignores_right_missing() == old(self).ignores_right_missing(),
            final(self).filter() == old(self).filter(),
    {
        self.ignore_left_missing = value;
    }

    pub fn set_ignore_right_missing(&mut self, value: bool)
        ensures
            final(self).ignores_right_missing() == value,
            final(self).paths() == old(self).paths(),
            final(self).ignores_left_missing() == old(self).ignores_left_missing(),
            final(self).filter() == old(self).filter(),
    {
        self.ignore_right_missing = value;
    }

    pub fn set_filter_name(&mut self, value: Option<String>)
        ensures
            final(self).filter() == value,
            final(self).paths() == old(self).paths(),
            final(self).ignores_left_missing() == old(self).ignores_left_missing(),
            final(self).ignores_right_missing() == old(self).ignores_right_missing(),
    {
        self.filter_name = value;
    }

    /// The filter on names, if one is set.
    pub fn filter_name(&self) -> (r: Option<&str>)
        ensures
            match (r, self.filter()) {
                (Some(f), Some(g)) => f@ == g@,
                (None, None) => true,
                _ => false,
            },
    {
        match &self.filter_name {
            Some(f) => Some(f.as_str()),
            None => None,
        }
    }

    /// The results worth reporting, in their order: pairs that matched are
    /// dropped, and so are pairs with a missing side that is ignored.
    pub fn select_results(&self, results: Vec<PairResult>) -> (r: DirDiff)
        ensures
            r.diffs@ == kept_results(true, self.ignores_left_missing(), self.ignores_right_missing(), results@),
    {
        DirDiff {
            diffs: retain_results(results, true, self.ignore_left_missing, self.ignore_right_missing),
        }
    }
}

/// The results of comparing two directories, in the order of their names.
#[derive(Debug)]
pub struct DirDiff {
    pub diffs: Vec<PairResult>,
}

impl DirDiff {
    pub fn results(&self) -> (r: &[PairResult])
        ensures
            r@ == self.diffs@,
    {
        self.diffs.as_slice()
    }
}

/// The configuration of a comparison that may also leave out pairs that match.
pub struct DiffBuilder {
    left_path: PathBuf,
    right_path: PathBuf,
    ignore_match: bool,
    ignore_left_missing: bool,
    ignore_right_missing: bool,
    filter_name: Option<String>,
}

impl DiffBuilder {
    /// The two roots, left and right.
    pub closed spec fn paths(&self) -> (PathBuf, PathBuf) {
        (self.left_path, self.right_path)
    }

    pub closed spec fn ignores_match(&self) -> bool {
        self.ignore_match
    }

    pub closed spec fn ignores_left_missing(&self) -> bool {
        self.ignore_left_missing
    }

    pub closed spec fn ignores_right_missing(&self) -> bool {
        self.ignore_right_missing
    }

    pub closed spec fn filter(&self) -> Option<String> {
        self.filter_name
    }

    /// A comparison of `left_path` with `right_path` that keeps every pair.
    pub fn new(left_path: PathBuf, right_path: PathBuf) -> (r: Self)
        ensures
            r.paths() == (left_path, right_path),
            !r.ignores_match(),
            !r.ignores_left_missing(),
            !r.ignores_right_missing(),
            r.filter() is None,
    {
        DiffBuilder {
            left_path,
            right_path,
            ignore_match: false,
            ignore_left_missing: false,
            ignore_right_missing: false,
            filter_name: None,
        }
    }

    pub fn left_path(&self) -> &Path {
        self.left_path.as_path()
    }

    pub fn right_path(&self) -> &Path {
        self.right_path.as_path()
    }

    pub fn set_ignore_match(&mut self, value: bool)
        ensures
            final(self).ignores_match() == value,
            final(self).paths() == old(self).paths(),
            final(self).ignores_left_missing() == old(self).ignores_left_missing(),
            final(self).ignores_right_missing() == old(self).ignores_right_missing(),
            final(self).filter() == old(self).filter(),
    {
        self.ignore_match = value;
    }

    pub fn set_ignore_left_missing(&mut self, value: bool)
        ensures
            final(self).ignores_left_missing() == value,
            final(self).paths() == old(self).paths(),
            final(self).ignores_match() == old(self).ignores_match(),
            final(self).ignores_right_missing() == old(self).ignores_right_missing(),
            final(self).filter() == old(self).filter(),
    {
        self.ignore_left_missing = value;
    }

    pub fn set_ignore_right_missing(&mut self, value: bool)
        ensures
            final(self).ignores_right_missing() == value,
            final(self).paths() == old(self).paths(),
            final(self).ignores_match() == old(self).ignores_match(),
            final(self).ignores_left_missing() == old(self).ignores_left_missing(),
            final(self).filter() == old(self).filter(),
    {
        self.ignore_right_missing = value;
    }

    pub fn set_filter_name(&mut self, value: Option<String>)
        ensures
            final(self).filter() == value,
            final(self).paths() == old(self).paths(),
            final(self).ignores_match() == old(self).ignores_match(),
            final(self).ignores_left_missing() == old(self).ignores_left_missing(),
            final(self).ignores_right_missing() == old(self).ignores_right_missing(),
    {
        self.filter_name = value;
    }

    /// The filter on names, if one is set.
    pub fn filter_name(&self) -> (r: Option<&str>)
        ensures
            match (r, self.filter()) {
                (Some(f), Some(g)) => f@ == g@,
                (None, None) => true,
                _ => false,
            },
    {
        match &self.filter_name {
            Some(f) => Some(f.as_str()),
            None => None,
        }
    }

    /// The results worth reporting, in their order, under the builder's flags.
    pub fn select_results(&self, results: Vec<PairResult>) -> (r: DirDiff)
        ensures
            r.diffs@ == kept_results(
                self.ignores_match(),
                self.ignores_left_missing(),
                self.ignores_right_missing(),
                results@,
            ),
    {
        DirDiff {
            diffs: retain_results(
                results,
                self.ignore_match,
                self.ignore_left_missing,
                self.ignore_right_missing,
            ),
        }
    }
}

/// The names of the results, in their order.
pub open spec fn titles(s: Seq<PairResult>) -> Seq<Seq<char>> {
    s.map_values(|p: PairResult| p.title@)
}

proof fn lemma_kept_come_from_input(
    ignore_match: bool,
    ignore_left_missing: bool,
    ignore_right_missing: bool,
    s: Seq<PairResult>,
)
    ensures
        forall|k: int|
            0 <= k < kept_results(ignore_match, ignore_left_missing, ignore_right_missing, s).len()
                ==> exists|j: int|
                0 <= j < s.len() && #[trigger] kept_results(
                    ignore_match,
                    ignore_left_missing,
                    ignore_right_missing,
                    s,
                )[k] == s[j],
    decreases s.len(),
{
    if s.len() > 0 {
        let d = s.drop_last();
        lemma_kept_come_from_input(ignore_match, ignore_left_missing, ignore_right_missing, d);
        let kd = kept_results(ignore_match, ignore_left_missing, ignore_right_missing, d);
        let ks = kept_results(ignore_match, ignore_left_missing, ignore_right_missing, s);
        assert forall|k: int| 0 <= k < ks.len() implies exists|j: int|
            0 <= j < s.len() && #[trigger] ks[k] == s[j] by {
            if k < kd.len() {
                let j = choose|j: int| 0 <= j < d.len() && kd[k] == d[j];
                assert(ks[k] == s[j]);
            } else {
                assert(ks[k] == s[s.len() - 1]);
            }
        }
    }
}

/// Selecting results keeps the order of names: where the results come in
/// strictly increasing name order (as the pairing gives them, whatever order
/// the comparisons finished in), the kept results do too, and each of them is
/// one of the results given.
pub proof fn lemma_selection_keeps_name_order(
    ignore_match: bool,
    ignore_left_missing: bool,
    ignore_right_missing: bool,
    s: Seq<PairResult>,
)
    requires
        strictly_sorted(titles(s)),
    ensures
        strictly_sorted(
            titles(kept_results(ignore_match, ignore_left_missing, ignore_right_missing, s)),
        ),
        forall|p: PairResult|
            kept_results(ignore_match, ignore_left_missing, ignore_right_missing, s).contains(p)
                ==> s.contains(p),
    decreases s.len(),
{
    lemma_kept_come_from_input(ignore_match, ignore_left_missing, ignore_right_missing, s);
    let ks = kept_results(ignore_match, ignore_left_missing, ignore_right_missing, s);
    assert forall|p: PairResult| ks.contains(p) implies s.contains(p) by {
        let k = choose|k: int| 0 <= k < ks.len() && ks[k] == p;
        let j = choose|j: int| 0 <= j < s.len() && #[trigger] ks[k] == s[j];
        assert(s[j] == p);
    }
    if s.len() > 0 {
        let d = s.drop_last();
        assert(titles(d) =~= titles(s).drop_last());
        assert forall|a: int, b: int| 0 <= a < b < titles(d).len() implies name_lt(
            #[trigger] titles(d)[a],
            #[trigger] titles(d)[b],
        ) by {
            assert(titles(d)[a] == titles(s)[a] && titles(d)[b] == titles(s)[b]);
        }
        lemma_selection_keeps_name_order(ignore_match, ignore_left_missing, ignore_right_missing, d);
        lemma_kept_come_from_input(ignore_match, ignore_left_missing, ignore_right_missing, d);
        let kd = kept_results(ignore_match, ignore_left_missing, ignore_right_missing, d);
        if keeps(ignore_match, ignore_left_missing, ignore_right_missing, s.last().image_diff) {
            let last = s.len() - 1;
            assert(titles(ks) =~= titles(kd).push(s.last().title@));
            assert forall|a: int, b: int| 0 <= a < b < titles(ks).len() implies name_lt(
                #[trigger] titles(ks)[a],
                #[trigger] titles(ks)[b],
            ) by {
                if b == titles(kd).len() {
                    let j = choose|j: int| 0 <= j < d.len() && #[trigger] kd[a] == d[j];
                    assert(titles(ks)[a] == titles(s)[j]);
                    assert(titles(ks)[b] == titles(s)[last]);
                } else {
                    assert(titles(ks)[a] == titles(kd)[a] && titles(ks)[b] == titles(kd)[b]);
                }
            }
        }
    }
}

/// The indices of `tagged` are each of `0..tagged.len()`, each once.
pub open spec fn indexes_each_position(tagged: Seq<(usize, PairResult)>) -> bool {
    &&& forall|j: int| 0 <= j < tagged.len() ==> (#[trigger] tagged[j]).0 < tagged.len()
    &&& forall|j: int, k: int|
        0 <= j < k < tagged.len() ==> (#[trigger] tagged[j]).0 != (#[trigger] tagged[k]).0
    &&& forall|i: int| 0 <= i < tagged.len() ==> #[trigger] has_index(tagged, i)
}

/// Some result of `tagged` is tagged with position `i`.
pub open spec fn has_index(tagged: Seq<(usize, PairResult)>, i: int) -> bool {
    exists|j: int| 0 <= j < tagged.len() && (#[trigger] tagged[j]).0 == i
}

/// Puts results that come back from workers, in whatever order they finished,
/// each tagged with the position of its pair, back at their positions.
pub fn order_by_index(tagged: Vec<(usize, PairResult)>) -> (r: Vec<PairResult>)
    requires
        indexes_each_position(tagged@),
    ensures
        r@.len() == tagged@.len(),
        forall|j: int| 0 <= j < tagged@.len() ==> r@[(#[trigger] tagged@[j]).0 as int] == tagged@[j].1,
{
    let ghost all = tagged@;
    let n = tagged.len();
    let mut slots: Vec<Option<PairResult>> = Vec::new();
    while slots.len() < n
        invariant
            slots@.len() <= n,
            forall|k: int| 0 <= k < slots@.len() ==> slots@[k] is None,
        decreases n - slots@.len(),
    {
        slots.push(None);
    }
    let mut rest = tagged;
    while rest.len() > 0
        invariant
            n == all.len(),
            slots@.len() == n,
            indexes_each_position(all),
            rest@.len() <= n,
            rest@ == all.subrange(0, rest@.len() as int),
            forall|j: int| rest@.len() <= j < n ==> slots@[(#[trigger] all[j]).0 as int] == Some(all[j].1),
            forall|j: int| 0 <= j < rest@.len() ==> slots@[(#[trigger] all[j]).0 as int] is None,
        decreases rest@.len(),
    {
        let ghost m = rest@.len() - 1;
        assert(rest@[m] == all[m]);
        let (index, result) = rest.pop().unwrap();
        assert(all[m].0 == index && all[m].1 == result);
        let ghost before = slots@;
        slots.set(index, Some(result));
        assert forall|j: int| m <= j < n implies slots@[(#[trigger] all[j]).0 as int] == Some(all[j].1) by {
            if j > m {
                assert(all[j].0 != all[m].0);
            }
        }
        assert forall|j: int| 0 <= j < m implies slots@[(#[trigger] all[j]).0 as int] is None by {
            assert(all[j].0 != all[m].0);
        }
        assert(rest@ =~= all.subrange(0, m));
    }
    let mut reversed: Vec<PairResult> = Vec::new();
    while slots.len() > 0
        invariant
            n == all.len(),
            indexes_each_position(all),
            slots@.len() + reversed@.len() == n,
            forall|j: int| 0 <= j < n && (#[trigger] all[j]).0 < slots@.len() ==> slots@[all[j].0 as int] == Some(all[j].1),
            forall|j: int| 0 <= j < n && (#[trigger] all[j]).0 >= slots@.len() ==> reversed@[n - 1 - all[j].0] == all[j].1,
        decreases slots@.len(),
    {
        let ghost k = slots@.len() - 1;
        assert(has_index(all, k));
        let j0 = Ghost(choose|j: int| 0 <= j < n && (#[trigger] all[j]).0 == k);
        assert(slots@[k] == Some(all[j0@].1));
        let slot = slots.pop().unwrap();
        match slot {
            Some(result) => {
                reversed.push(result);
            },
            None => {
                assert(false);
            },
        }
        assert forall|j: int| 0 <= j < n && (#[trigger] all[j]).0 >= slots@.len() implies reversed@[n - 1 - all[j].0] == all[j].1 by {
            if all[j].0 == k {
                assert(j == j0@);
            }
        }
    }
    let mut out: Vec<PairResult> = Vec::new();
    while reversed.len() > 0
        invariant
            n == all.len(),
            out@.len() + reversed@.len() == n,
            forall|j: int| 0 <= j < n && (#[trigger] all[j]).0 < out@.len() ==> out@[all[j].0 as int] == all[j].1,
            forall|j: int| 0 <= j < n && (#[trigger] all[j]).0 >= out@.len() ==> reversed@[n - 1 - all[j].0] == all[j].1,
            forall|j: int| 0 <= j < n ==> (#[trigger] all[j]).0 < n,
        decreases reversed@.len(),
    {
        let result = reversed.pop().unwrap();
        out.push(result);
    }
    out
}

/// The order of the results does not depend on the order in which workers
/// finished: where each result carries the name of the pair at its position,
/// the placed results carry the pairing's names in the pairing's order, and
/// strictly increasing names stay so after selection.
pub proof fn lemma_placed_results_follow_pairing(
    names: Seq<Seq<char>>,
    tagged: Seq<(usize, PairResult)>,
    placed: Seq<PairResult>,
)
    requires
        strictly_sorted(names),
        names.len() == tagged.len(),
        indexes_each_position(tagged),
        forall|j: int| 0 <= j < tagged.len() ==> (#[trigger] tagged[j]).1.title@ == names[tagged[j].0 as int],
        placed.len() == tagged.len(),
        forall|j: int| 0 <= j < tagged.len() ==> placed[(#[trigger] tagged[j]).0 as int] == tagged[j].1,
    ensures
        titles(placed) == names,
        forall|m: bool, l: bool, r: bool| strictly_sorted(#[trigger] titles(kept_results(m, l, r, placed))),
{
    assert forall|i: int| 0 <= i < names.len() implies titles(placed)[i] == names[i] by {
        assert(has_index(tagged, i));
        let j = choose|j: int| 0 <= j < tagged.len() && (#[trigger] tagged[j]).0 == i;
        assert(placed[i] == tagged[j].1);
    }
    assert(titles(placed) =~= names);
    assert forall|m: bool, l: bool, r: bool| strictly_sorted(#[trigger] titles(kept_results(m, l, r, placed))) by {
        lemma_selection_keeps_name_order(m, l, r, placed);
    }
}

} // verus!
