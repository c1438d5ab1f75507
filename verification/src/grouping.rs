use crate::buckets::{appended, lemma_total_appended, total};
use crate::image::Image;
use crate::key::{KeyShape, TimeKey};
use crate::metadata::{capture_date, get_datetime_original};
use crate::tree::Tree;
use vstd::prelude::*;
use vstd::string::StringExecFns;

verus! {

/// One file that the walk has found, with the year and the month at which
/// it was taken where the file says so.
#[derive(Debug, PartialEq)]
pub struct Candidate {
    pub image: Image,
    pub datetime: Option<(i32, u32)>,
}

impl Candidate {
    /// The candidate for a file of these bytes: it has the date at which
    /// the bytes say the picture was taken, and no date where they say
    /// none.
    pub fn dated(image: Image, bytes: &[u8]) -> (candidate: Candidate)
        ensures
            candidate.image == image,
            candidate.datetime == capture_date(bytes@),
    {
        Candidate { image, datetime: get_datetime_original(bytes) }
    }
}

/// Why no tree could be filled.
#[derive(Clone, Copy, Debug, PartialEq, Eq, Structural)]
pub enum FindError {
    /// The walk found no media file.
    NotFound,
}

impl FindError {
    /// The text of the error, for the user.
    pub open spec fn text(self) -> Seq<char> {
        "Did not find any media with metadata."@
    }

    /// The text of the error, for the user.
    pub fn message(&self) -> (message: String)
        ensures
            message@ == self.text(),
    {
        String::from_str("Did not find any media with metadata.")
    }
}

/// The buckets after the candidates have been filed one by one, each under
/// the key of its date, and under the sentinel where it has none.
pub open spec fn filled(
    buckets: Map<TimeKey, Seq<Image>>,
    shape: KeyShape,
    candidates: Seq<Candidate>,
) -> Map<TimeKey, Seq<Image>>
    decreases candidates.len(),
{
    if candidates.len() == 0 {
        buckets
    } else {
        appended(
            filled(buckets, shape, candidates.drop_last()),
            shape.key_for(candidates.last().datetime),
            candidates.last().image,
        )
    }
}

/// However many candidates are filed, each adds one to the total: none is
/// lost, and none is counted twice.
pub proof fn lemma_filled_total(
    buckets: Map<TimeKey, Seq<Image>>,
    shape: KeyShape,
    candidates: Seq<Candidate>,
)
    requires
        buckets.dom().finite(),
    ensures
        filled(buckets, shape, candidates).dom().finite(),
        total(filled(buckets, shape, candidates)) == total(buckets) + candidates.len(),
    decreases candidates.len(),
{
    if candidates.len() > 0 {
        lemma_filled_total(buckets, shape, candidates.drop_last());
        lemma_total_appended(
            filled(buckets, shape, candidates.drop_last()),
            shape.key_for(candidates.last().datetime),
            candidates.last().image,
        );
    }
}

/// Every candidate that was filed stands in the bucket of its own key: of
/// the key of its date where it has one, of the sentinel where it has
/// none. What the buckets held before is still there, in front.
pub proof fn lemma_filled_holds(
    buckets: Map<TimeKey, Seq<Image>>,
    shape: KeyShape,
    candidates: Seq<Candidate>,
)
    ensures
        forall|at: int|
            0 <= at < candidates.len() ==> {
                let key = shape.key_for((#[trigger] candidates[at]).datetime);
                &&& filled(buckets, shape, candidates).contains_key(key)
                &&& filled(buckets, shape, candidates)[key].contains(candidates[at].image)
            },
        forall|key: TimeKey| #[trigger]
            buckets.contains_key(key) ==> {
                &&& filled(buckets, shape, candidates).contains_key(key)
                &&& buckets[key].is_prefix_of(filled(buckets, shape, candidates)[key])
            },
    decreases candidates.len(),
{
    if candidates.len() > 0 {
        let front = candidates.drop_last();
        let last = candidates.last();
        let before = filled(buckets, shape, front);
        let after = filled(buckets, shape, candidates);
        let last_key = shape.key_for(last.datetime);
        lemma_filled_holds(buckets, shape, front);
        assert(after == appended(before, last_key, last.image));
        assert forall|at: int| 0 <= at < candidates.len() implies {
            let key = shape.key_for((#[trigger] candidates[at]).datetime);
            &&& after.contains_key(key)
            &&& after[key].contains(candidates[at].image)
        } by {
            let key = shape.key_for(candidates[at].datetime);
            if at < front.len() {
                assert(front[at] == candidates[at]);
                assert(before[key].contains(candidates[at].image));
                let within = choose|within: int|
                    0 <= within < before[key].len() && before[key][within] == candidates[at].image;
                if key == last_key {
                    assert(after[key][within] == candidates[at].image);
                }
            } else {
                assert(after[key].last() == last.image);
            }
        }
        assert forall|key: TimeKey| #[trigger] buckets.contains_key(key) implies {
            &&& after.contains_key(key)
            &&& buckets[key].is_prefix_of(after[key])
        } by {
            assert(buckets[key].is_prefix_of(before[key]));
        }
    }
}

/// Files one candidate: under the key of its date, and under the sentinel
/// where it has none.
pub fn place(tree: &mut Tree, candidate: Candidate)
    ensures
        final(tree).shape() == old(tree).shape(),
        final(tree)@ == appended(
            old(tree)@,
            old(tree).shape().key_for(candidate.datetime),
            candidate.image,
        ),
        final(tree).total() == old(tree).total() + 1,
{
    let Candidate { image, datetime } = candidate;
    match datetime {
        Some(datetime) => tree.insert(datetime, image),
        None => tree.insert((0, 0), image),
    }
}

/// Files every candidate in the tree, in the order given. Without any
/// candidate there is nothing to sort: the tree stays as it is, and the
/// answer is `NotFound`.
pub fn find(candidates: Vec<Candidate>, tree: &mut Tree) -> (result: Result<(), FindError>)
    ensures
        final(tree).shape() == old(tree).shape(),
        final(tree)@ == filled(old(tree)@, old(tree).shape(), candidates@),
        final(tree).total() == old(tree).total() + candidates@.len(),
        result is Err <==> candidates@.len() == 0,
        result is Err ==> *final(tree) == *old(tree),
{
    if candidates.len() == 0 {
        return Err(FindError::NotFound);
    }
    let ghost all = candidates@;
    assert(all.take(0) =~= Seq::<Candidate>::empty());
    for candidate in walk: candidates
        invariant
            walk.seq() == all,
            tree.shape() == old(tree).shape(),
            tree@ == filled(old(tree)@, old(tree).shape(), all.take(walk.index())),
            tree.total() == old(tree).total() + walk.index(),
    {
        proof {
            let next = walk.index() + 1;
            assert(all.take(next).drop_last() =~= all.take(walk.index()));
            assert(all.take(next).last() == candidate);
        }
        place(tree, candidate);
    }
    assert(all.take(all.len() as int) =~= all);
    Ok(())
}

} // verus!
