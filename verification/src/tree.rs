use crate::buckets::{
    append, appended, bucket_views, corresponds, count, lemma_appended_rekeyed,
    lemma_keys_rekeyed, lemma_total_appended, lemma_total_rekeyed, ordered_keys, total,
};
use crate::image::Image;
use crate::key::{
    lemma_listing_exists, lemma_listing_unique, lists, ordered, KeyShape, TimeKey,
};
use vstd::std_specs::cmp::OrdSpec;
use core::cmp::Ordering;
use std::collections::BTreeMap;
use vstd::prelude::*;

verus! {

/// The grouping index: the media files found so far, in buckets by the key
/// of their capture date. The variant fixes the shape of the keys.
#[derive(PartialEq, Debug)]
pub enum Tree {
    YearMonth(BTreeMap<(i32, u32), Vec<Image>>),
    Year(BTreeMap<i32, Vec<Image>>),
    Month(BTreeMap<u32, Vec<Image>>),
}

impl View for Tree {
    type V = Map<TimeKey, Seq<Image>>;

    /// The buckets by key, each in the order in which its items came in.
    open spec fn view(&self) -> Map<TimeKey, Seq<Image>> {
        match self {
            Tree::YearMonth(tree) => Map::new(
                |key: TimeKey|
                    key matches TimeKey::YearMonth(year, month) && tree@.contains_key(
                        (year, month),
                    ),
                |key: TimeKey|
                    match key {
                        TimeKey::YearMonth(year, month) => tree@[(year, month)]@,
                        _ => Seq::empty(),
                    },
            ),
            Tree::Year(tree) => Map::new(
                |key: TimeKey| key matches TimeKey::Year(year) && tree@.contains_key(year),
                |key: TimeKey|
                    match key {
                        TimeKey::Year(year) => tree@[year]@,
                        _ => Seq::empty(),
                    },
            ),
            Tree::Month(tree) => Map::new(
                |key: TimeKey| key matches TimeKey::Month(month) && tree@.contains_key(month),
                |key: TimeKey|
                    match key {
                        TimeKey::Month(month) => tree@[month]@,
                        _ => Seq::empty(),
                    },
            ),
        }
    }
}

impl Tree {
    /// The shape of this tree's keys.
    pub open spec fn shape(&self) -> KeyShape {
        match self {
            Tree::YearMonth(_) => KeyShape::YearMonth,
            Tree::Year(_) => KeyShape::Year,
            Tree::Month(_) => KeyShape::Month,
        }
    }

    /// The number of files in the tree.
    pub open spec fn total(&self) -> nat {
        total(self@)
    }

    /// A tree has finitely many keys, all of its own shape.
    pub proof fn lemma_keys(&self)
        ensures
            self@.dom().finite(),
            forall|key: TimeKey| #[trigger] self@.contains_key(key) ==> key.shape() == self.shape(),
    {
        broadcast use vstd::std_specs::btree::group_btree_axioms;

        match self {
            Tree::YearMonth(tree) => {
                let keys = tree@.dom().map(|raw: (i32, u32)| year_month_key(raw));
                tree@.dom().lemma_map_finite(|raw: (i32, u32)| year_month_key(raw));
                assert forall|key: TimeKey| self@.dom().contains(key) implies keys.contains(
                    key,
                ) by {
                    if let TimeKey::YearMonth(year, month) = key {
                        assert(tree@.dom().contains((year, month)));
                    }
                }
                assert(self@.dom() =~= keys);
            },
            Tree::Year(tree) => {
                let keys = tree@.dom().map(|raw: i32| year_key(raw));
                tree@.dom().lemma_map_finite(|raw: i32| year_key(raw));
                assert forall|key: TimeKey| self@.dom().contains(key) implies keys.contains(
                    key,
                ) by {
                    if let TimeKey::Year(year) = key {
                        assert(tree@.dom().contains(year));
                    }
                }
                assert(self@.dom() =~= keys);
            },
            Tree::Month(tree) => {
                let keys = tree@.dom().map(|raw: u32| month_key(raw));
                tree@.dom().lemma_map_finite(|raw: u32| month_key(raw));
                assert forall|key: TimeKey| self@.dom().contains(key) implies keys.contains(
                    key,
                ) by {
                    if let TimeKey::Month(month) = key {
                        assert(tree@.dom().contains(month));
                    }
                }
                assert(self@.dom() =~= keys);
            },
        }
    }

    /// Whatever the order in which the files came in, the tree's keys have
    /// one listing in strictly ascending order, and `ordered` is that
    /// listing.
    pub proof fn lemma_ordered(&self)
        ensures
            lists(ordered(self@.dom()), self@.dom()),
            forall|keys: Seq<TimeKey>| lists(keys, self@.dom()) ==> keys == ordered(self@.dom()),
    {
        self.lemma_keys();
        lemma_listing_exists(self@.dom(), self.shape());
        assert forall|keys: Seq<TimeKey>| lists(keys, self@.dom()) implies keys == ordered(
            self@.dom(),
        ) by {
            lemma_listing_unique(keys, ordered(self@.dom()), self@.dom());
        }
    }

    /// The shape of this tree's keys.
    pub fn key_shape(&self) -> (shape: KeyShape)
        ensures
            shape == self.shape(),
    {
        match self {
            Tree::YearMonth(_) => KeyShape::YearMonth,
            Tree::Year(_) => KeyShape::Year,
            Tree::Month(_) => KeyShape::Month,
        }
    }

    /// Files `image` under the key that `datetime`, a year and a month, has
    /// in this tree's shape: at the end of that key's bucket, which is
    /// created where the tree has none. All other buckets stay as they are.
    pub fn insert(&mut self, datetime: (i32, u32), image: Image)
        ensures
            final(self).shape() == old(self).shape(),
            final(self)@ == appended(
                old(self)@,
                old(self).shape().key_of(datetime.0, datetime.1),
                image,
            ),
            final(self).total() == old(self).total() + 1,
    {
        broadcast use vstd::laws_cmp::group_laws_cmp;

        proof {
            old(self).lemma_keys();
            lemma_total_appended(
                old(self)@,
                old(self).shape().key_of(datetime.0, datetime.1),
                image,
            );
        }
        match self {
            Tree::YearMonth(tree) => {
                append(tree, datetime, image);
            },
            Tree::Year(tree) => {
                let (year, _) = datetime;
                append(tree, year, image);
            },
            Tree::Month(tree) => {
                let (_, month) = datetime;
                append(tree, month, image);
            },
        }
        proof {
            old(self).lemma_grown(*self, datetime, image);
        }
    }

    /// Whether `after` has this tree's shape, and its map holds what this
    /// tree's map holds and `image` at the end of the bucket that
    /// `datetime` names.
    spec fn grown_to(&self, after: Tree, datetime: (i32, u32), image: Image) -> bool {
        match (*self, after) {
            (Tree::YearMonth(before), Tree::YearMonth(grown)) => bucket_views(grown@) == appended(
                bucket_views(before@),
                datetime,
                image,
            ),
            (Tree::Year(before), Tree::Year(grown)) => bucket_views(grown@) == appended(
                bucket_views(before@),
                datetime.0,
                image,
            ),
            (Tree::Month(before), Tree::Month(grown)) => bucket_views(grown@) == appended(
                bucket_views(before@),
                datetime.1,
                image,
            ),
            _ => false,
        }
    }

    /// An append to the map inside a tree is an append to the tree's view.
    proof fn lemma_grown(&self, after: Tree, datetime: (i32, u32), image: Image)
        requires
            self.grown_to(after, datetime, image),
        ensures
            after.shape() == self.shape(),
            after@ == appended(self@, self.shape().key_of(datetime.0, datetime.1), image),
    {
        self.lemma_view();
        after.lemma_view();
        match (*self, after) {
            (Tree::YearMonth(before), Tree::YearMonth(grown)) => {
                lemma_appended_rekeyed(
                    bucket_views(before@),
                    self@,
                    bucket_views(grown@),
                    after@,
                    |raw: (i32, u32)| year_month_key(raw),
                    |key: TimeKey| year_month_of(key),
                    datetime,
                    image,
                );
            },
            (Tree::Year(before), Tree::Year(grown)) => {
                lemma_appended_rekeyed(
                    bucket_views(before@),
                    self@,
                    bucket_views(grown@),
                    after@,
                    |raw: i32| year_key(raw),
                    |key: TimeKey| year_of(key),
                    datetime.0,
                    image,
                );
            },
            (Tree::Month(before), Tree::Month(grown)) => {
                lemma_appended_rekeyed(
                    bucket_views(before@),
                    self@,
                    bucket_views(grown@),
                    after@,
                    |raw: u32| month_key(raw),
                    |key: TimeKey| month_of(key),
                    datetime.1,
                    image,
                );
            },
            _ => {},
        }
    }

    /// The tree's view holds the buckets of the map inside it, key for key.
    proof fn lemma_view(&self)
        ensures
            match self {
                Tree::YearMonth(tree) => corresponds(
                    bucket_views(tree@),
                    self@,
                    |raw: (i32, u32)| year_month_key(raw),
                    |key: TimeKey| year_month_of(key),
                ),
                Tree::Year(tree) => corresponds(
                    bucket_views(tree@),
                    self@,
                    |raw: i32| year_key(raw),
                    |key: TimeKey| year_of(key),
                ),
                Tree::Month(tree) => corresponds(
                    bucket_views(tree@),
                    self@,
                    |raw: u32| month_key(raw),
                    |key: TimeKey| month_of(key),
                ),
            },
    {
        match self {
            Tree::YearMonth(tree) => {
                assert forall|raw: (i32, u32)| #[trigger]
                    bucket_views(tree@).contains_key(raw) implies self@.contains_key(
                    year_month_key(raw),
                ) && self@[year_month_key(raw)] == bucket_views(tree@)[raw] by {
                    assert(tree@.contains_key((raw.0, raw.1)));
                }
            },
            Tree::Year(tree) => {},
            Tree::Month(tree) => {},
        }
    }

    /// The bucket of `key`, where the tree has one.
    pub fn bucket(&self, key: &TimeKey) -> (bucket: Option<&Vec<Image>>)
        ensures
            match bucket {
                Some(images) => self@.contains_key(*key) && images@ == self@[*key],
                None => !self@.contains_key(*key),
            },
    {
        broadcast use vstd::laws_cmp::group_laws_cmp;
        broadcast use vstd::std_specs::btree::group_btree_axioms;

        match (self, key) {
            (Tree::YearMonth(tree), TimeKey::YearMonth(year, month)) => tree.get(&(*year, *month)),
            (Tree::Year(tree), TimeKey::Year(year)) => tree.get(year),
            (Tree::Month(tree), TimeKey::Month(month)) => tree.get(month),
            _ => None,
        }
    }

    /// The keys of the tree in ascending order, whatever the order in which
    /// the files came in.
    pub fn keys(&self) -> (keys: Vec<TimeKey>)
        ensures
            lists(keys@, self@.dom()),
            keys@ == ordered(self@.dom()),
    {
        broadcast use vstd::laws_cmp::group_laws_cmp;

        proof {
            self.lemma_view();
        }
        let mut keys: Vec<TimeKey> = Vec::new();
        match self {
            Tree::YearMonth(tree) => {
                let raw = ordered_keys(tree);
                for at in 0..raw.len()
                    invariant
                        keys@.len() == at,
                        forall|i: int|
                            0 <= i < at ==> #[trigger] keys@[i] == year_month_key(raw@[i]),
                {
                    let (year, month) = raw[at];
                    keys.push(TimeKey::YearMonth(year, month));
                }
                proof {
                    lemma_keys_rekeyed(
                        raw@,
                        keys@,
                        bucket_views(tree@),
                        self@,
                        |raw: (i32, u32)| year_month_key(raw),
                        |key: TimeKey| year_month_of(key),
                    );
                    assert forall|i: int, j: int| 0 <= i < j < keys@.len() implies (
                    #[trigger] keys@[i]).precedes(#[trigger] keys@[j]) by {
                        assert(raw@[i].cmp_spec(&raw@[j]) is Less);
                    }
                }
            },
            Tree::Year(tree) => {
                let raw = ordered_keys(tree);
                for at in 0..raw.len()
                    invariant
                        keys@.len() == at,
                        forall|i: int| 0 <= i < at ==> #[trigger] keys@[i] == year_key(raw@[i]),
                {
                    keys.push(TimeKey::Year(raw[at]));
                }
                proof {
                    lemma_keys_rekeyed(
                        raw@,
                        keys@,
                        bucket_views(tree@),
                        self@,
                        |raw: i32| year_key(raw),
                        |key: TimeKey| year_of(key),
                    );
                    assert forall|i: int, j: int| 0 <= i < j < keys@.len() implies (
                    #[trigger] keys@[i]).precedes(#[trigger] keys@[j]) by {
                        assert(raw@[i].cmp_spec(&raw@[j]) is Less);
                    }
                }
            },
            Tree::Month(tree) => {
                let raw = ordered_keys(tree);
                for at in 0..raw.len()
                    invariant
                        keys@.len() == at,
                        forall|i: int| 0 <= i < at ==> #[trigger] keys@[i] == month_key(raw@[i]),
                {
                    keys.push(TimeKey::Month(raw[at]));
                }
                proof {
                    lemma_keys_rekeyed(
                        raw@,
                        keys@,
                        bucket_views(tree@),
                        self@,
                        |raw: u32| month_key(raw),
                        |key: TimeKey| month_of(key),
                    );
                    assert forall|i: int, j: int| 0 <= i < j < keys@.len() implies (
                    #[trigger] keys@[i]).precedes(#[trigger] keys@[j]) by {
                        assert(raw@[i].cmp_spec(&raw@[j]) is Less);
                    }
                }
            },
        }
        proof {
            self.lemma_ordered();
            assert(lists(keys@, self@.dom()));
        }
        keys
    }

    /// The number of files in the tree, over all its buckets.
    pub fn size(&self) -> (n: usize)
        requires
            self.total() <= usize::MAX,
        ensures
            n == self.total(),
    {
        broadcast use vstd::laws_cmp::group_laws_cmp;
        broadcast use vstd::std_specs::btree::group_btree_axioms;

        proof {
            self.lemma_keys();
            self.lemma_view();
        }
        match self {
            Tree::YearMonth(tree) => {
                proof {
                    assert(bucket_views(tree@).dom() =~= tree@.dom());
                    lemma_total_rekeyed(
                        bucket_views(tree@),
                        self@,
                        |raw: (i32, u32)| year_month_key(raw),
                        |key: TimeKey| year_month_of(key),
                    );
                }
                count(tree)
            },
            Tree::Year(tree) => {
                proof {
                    assert(bucket_views(tree@).dom() =~= tree@.dom());
                    lemma_total_rekeyed(
                        bucket_views(tree@),
                        self@,
                        |raw: i32| year_key(raw),
                        |key: TimeKey| year_of(key),
                    );
                }
                count(tree)
            },
            Tree::Month(tree) => {
                proof {
                    assert(bucket_views(tree@).dom() =~= tree@.dom());
                    lemma_total_rekeyed(
                        bucket_views(tree@),
                        self@,
                        |raw: u32| month_key(raw),
                        |key: TimeKey| month_of(key),
                    );
                }
                count(tree)
            },
        }
    }
}

/// The key of a year and a month.
spec fn year_month_key(raw: (i32, u32)) -> TimeKey {
    TimeKey::YearMonth(raw.0, raw.1)
}

/// The key of a year.
spec fn year_key(raw: i32) -> TimeKey {
    TimeKey::Year(raw)
}

/// The key of a month.
spec fn month_key(raw: u32) -> TimeKey {
    TimeKey::Month(raw)
}

/// The year and the month of a key that holds both.
spec fn year_month_of(key: TimeKey) -> (i32, u32) {
    match key {
        TimeKey::YearMonth(year, month) => (year, month),
        _ => (0i32, 0u32),
    }
}

/// The year of a key that holds a year alone.
spec fn year_of(key: TimeKey) -> i32 {
    match key {
        TimeKey::Year(year) => year,
        _ => 0i32,
    }
}

/// The month of a key that holds a month alone.
spec fn month_of(key: TimeKey) -> u32 {
    match key {
        TimeKey::Month(month) => month,
        _ => 0u32,
    }
}

/// The shape that the two grouping flags ask for.
pub open spec fn shape_for(years: bool, months: bool) -> KeyShape {
    if years && months {
        KeyShape::YearMonth
    } else if years {
        KeyShape::Year
    } else {
        KeyShape::Month
    }
}

/// An empty tree of the shape that the flags ask for. One of the flags
/// must be set.
pub fn build_tree(years: &bool, months: &bool) -> (tree: Tree)
    requires
        *years || *months,
    ensures
        tree.shape() == shape_for(*years, *months),
        tree@ == Map::<TimeKey, Seq<Image>>::empty(),
{
    let tree = match (years, months) {
        (true, true) => Tree::YearMonth(BTreeMap::new()),
        (true, false) => Tree::Year(BTreeMap::new()),
        _ => Tree::Month(BTreeMap::new()),
    };
    assert(tree@ =~= Map::<TimeKey, Seq<Image>>::empty());
    tree
}

} // verus!
