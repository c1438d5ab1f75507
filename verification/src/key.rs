use vstd::prelude::*;

verus! {

/// Which components of a capture date form the grouping key. A tree keeps
/// one shape for its whole life.
#[derive(Clone, Copy, Debug, PartialEq, Eq, Structural)]
pub enum KeyShape {
    YearMonth,
    Year,
    Month,
}

/// A grouping key: a year and a month, a year alone, or a month alone.
/// The component `0` stands for "no capture date"; such a key is an
/// ordinary key and sorts before every other key of its shape.
#[derive(Clone, Copy, Debug, PartialEq, Eq, Structural)]
pub enum TimeKey {
    YearMonth(i32, u32),
    Year(i32),
    Month(u32),
}

impl TimeKey {
    /// Which components this key holds.
    pub open spec fn shape(self) -> KeyShape {
        match self {
            TimeKey::YearMonth(_, _) => KeyShape::YearMonth,
            TimeKey::Year(_) => KeyShape::Year,
            TimeKey::Month(_) => KeyShape::Month,
        }
    }

    /// The year component, `0` where the shape drops it.
    pub open spec fn year(self) -> int {
        match self {
            TimeKey::YearMonth(year, _) => year as int,
            TimeKey::Year(year) => year as int,
            TimeKey::Month(_) => 0,
        }
    }

    /// The month component, `0` where the shape drops it.
    pub open spec fn month(self) -> int {
        match self {
            TimeKey::YearMonth(_, month) => month as int,
            TimeKey::Year(_) => 0,
            TimeKey::Month(month) => month as int,
        }
    }

    /// The strict order in which a tree hands out its keys: by year, and
    /// within a year by month.
    pub open spec fn precedes(self, other: TimeKey) -> bool {
        self.year() < other.year() || (self.year() == other.year() && self.month()
            < other.month())
    }

    /// The shape of this key.
    pub fn key_shape(&self) -> (shape: KeyShape)
        ensures
            shape == self.shape(),
    {
        match self {
            TimeKey::YearMonth(_, _) => KeyShape::YearMonth,
            TimeKey::Year(_) => KeyShape::Year,
            TimeKey::Month(_) => KeyShape::Month,
        }
    }
}

impl KeyShape {
    /// The key that a capture date has under this shape.
    pub open spec fn key_of(self, year: i32, month: u32) -> TimeKey {
        match self {
            KeyShape::YearMonth => TimeKey::YearMonth(year, month),
            KeyShape::Year => TimeKey::Year(year),
            KeyShape::Month => TimeKey::Month(month),
        }
    }

    /// The key of the files that carry no capture date.
    pub open spec fn sentinel(self) -> TimeKey {
        self.key_of(0, 0)
    }

    /// The key under which a file with the given capture date is grouped:
    /// the date's own key, or the sentinel where there is no date.
    pub open spec fn key_for(self, datetime: Option<(i32, u32)>) -> TimeKey {
        match datetime {
            Some((year, month)) => self.key_of(year, month),
            None => self.sentinel(),
        }
    }

    /// Projects a capture date onto this shape.
    pub fn key(&self, year: i32, month: u32) -> (key: TimeKey)
        ensures
            key == self.key_of(year, month),
    {
        match self {
            KeyShape::YearMonth => TimeKey::YearMonth(year, month),
            KeyShape::Year => TimeKey::Year(year),
            KeyShape::Month => TimeKey::Month(month),
        }
    }
}

/// Whether every key of the sequence precedes all the keys after it.
pub open spec fn ascending(keys: Seq<TimeKey>) -> bool {
    forall|i: int, j: int|
        0 <= i < j < keys.len() ==> (#[trigger] keys[i]).precedes(#[trigger] keys[j])
}

/// Whether `keys` holds exactly the keys of `domain`, in ascending order.
pub open spec fn lists(keys: Seq<TimeKey>, domain: Set<TimeKey>) -> bool {
    &&& ascending(keys)
    &&& forall|key: TimeKey| keys.contains(key) <==> domain.contains(key)
}

/// The keys of `domain` in ascending order.
pub open spec fn ordered(domain: Set<TimeKey>) -> Seq<TimeKey> {
    choose|keys: Seq<TimeKey>| lists(keys, domain)
}

/// A set of keys has one ascending listing at most.
pub proof fn lemma_listing_unique(first: Seq<TimeKey>, second: Seq<TimeKey>, domain: Set<TimeKey>)
    requires
        lists(first, domain),
        lists(second, domain),
    ensures
        first == second,
    decreases first.len(),
{
    if first.len() == 0 {
        if second.len() > 0 {
            assert(second.contains(second[0]));
            assert(first.contains(second[0]));
        }
        assert(first =~= second);
    } else {
        let last = first.last();
        assert(first.contains(last));
        assert(second.contains(last));
        let at = choose|at: int| 0 <= at < second.len() && second[at] == last;
        assert(second.contains(second.last()));
        assert(first.contains(second.last()));
        let back = choose|back: int| 0 <= back < first.len() && first[back] == second.last();
        if at < second.len() - 1 {
            assert(second[at].precedes(second[second.len() - 1]));
            if back < first.len() - 1 {
                assert(first[back].precedes(first[first.len() - 1]));
            }
            assert(false);
        }
        assert(second.last() == last);
        let rest = domain.remove(last);
        assert forall|key: TimeKey| first.drop_last().contains(key) <==> rest.contains(key) by {
            lemma_all_but_last(first, key);
        }
        assert forall|key: TimeKey| second.drop_last().contains(key) <==> rest.contains(key) by {
            lemma_all_but_last(second, key);
        }
        lemma_listing_unique(first.drop_last(), second.drop_last(), rest);
        assert(first =~= first.drop_last().push(last));
        assert(second =~= second.drop_last().push(last));
    }
}

/// A finite set of keys of one shape, not empty, has a key that all its
/// other keys precede.
proof fn lemma_greatest(domain: Set<TimeKey>, shape: KeyShape) -> (greatest: TimeKey)
    requires
        domain.finite(),
        domain.len() > 0,
        forall|key: TimeKey| domain.contains(key) ==> key.shape() == shape,
    ensures
        domain.contains(greatest),
        forall|key: TimeKey| domain.contains(key) && key != greatest ==> key.precedes(greatest),
    decreases domain.len(),
{
    let any = domain.choose();
    let rest = domain.remove(any);
    if rest.len() == 0 {
        assert forall|key: TimeKey| domain.contains(key) && key != any implies key.precedes(
            any,
        ) by {
            assert(rest.contains(key));
        }
        any
    } else {
        let greatest = lemma_greatest(rest, shape);
        if greatest.precedes(any) {
            assert forall|key: TimeKey| domain.contains(key) && key != any implies key.precedes(
                any,
            ) by {
                assert(rest.contains(key));
            }
            any
        } else {
            lemma_precedes_total(greatest, any);
            assert forall|key: TimeKey|
                domain.contains(key) && key != greatest implies key.precedes(greatest) by {
                if key != any {
                    assert(rest.contains(key));
                }
            }
            greatest
        }
    }
}

/// A finite set of keys of one shape has an ascending listing, and
/// `ordered` is that listing.
pub proof fn lemma_listing_exists(domain: Set<TimeKey>, shape: KeyShape)
    requires
        domain.finite(),
        forall|key: TimeKey| domain.contains(key) ==> key.shape() == shape,
    ensures
        lists(ordered(domain), domain),
    decreases domain.len(),
{
    if domain.len() == 0 {
        let keys = Seq::<TimeKey>::empty();
        assert forall|key: TimeKey| keys.contains(key) <==> domain.contains(key) by {
            if domain.contains(key) {
                assert(domain.remove(key).len() + 1 == domain.len());
            }
        }
        assert(lists(keys, domain));
    } else {
        let greatest = lemma_greatest(domain, shape);
        let rest = domain.remove(greatest);
        lemma_listing_exists(rest, shape);
        let front = ordered(rest);
        let keys = front.push(greatest);
        assert forall|i: int, j: int| 0 <= i < j < keys.len() implies (#[trigger] keys[i]).precedes(
            #[trigger] keys[j],
        ) by {
            assert(front.contains(front[i]));
            if j < front.len() {
                assert(front[i].precedes(front[j]));
            } else {
                assert(rest.contains(front[i]));
            }
        }
        assert forall|key: TimeKey| keys.contains(key) <==> domain.contains(key) by {
            if keys.contains(key) {
                let at = choose|at: int| 0 <= at < keys.len() && keys[at] == key;
                if at < front.len() {
                    assert(front.contains(front[at]));
                }
            }
            if domain.contains(key) {
                if key == greatest {
                    assert(keys[front.len() as int] == key);
                } else {
                    assert(rest.contains(key));
                    assert(front.contains(key));
                    let at = choose|at: int| 0 <= at < front.len() && front[at] == key;
                    assert(keys[at] == key);
                }
            }
        }
        assert(lists(keys, domain));
    }
}

/// In an ascending sequence, all keys but the last stand before the last.
proof fn lemma_all_but_last(keys: Seq<TimeKey>, key: TimeKey)
    requires
        ascending(keys),
        keys.len() > 0,
    ensures
        keys.drop_last().contains(key) <==> keys.contains(key) && key != keys.last(),
        ascending(keys.drop_last()),
{
    let front = keys.drop_last();
    if front.contains(key) {
        let at = choose|at: int| 0 <= at < front.len() && front[at] == key;
        assert(keys[at] == key);
        assert(keys[at].precedes(keys[keys.len() - 1]));
    }
    if keys.contains(key) && key != keys.last() {
        let at = choose|at: int| 0 <= at < keys.len() && keys[at] == key;
        assert(front[at] == key);
    }
    assert forall|i: int, j: int| 0 <= i < j < front.len() implies (#[trigger] front[i]).precedes(
        #[trigger] front[j],
    ) by {
        assert(keys[i].precedes(keys[j]));
    }
}

/// Two keys of one shape are equal or ordered one way round.
pub proof fn lemma_precedes_total(a: TimeKey, b: TimeKey)
    requires
        a.shape() == b.shape(),
    ensures
        a == b || a.precedes(b) || b.precedes(a),
        !(a.precedes(b) && b.precedes(a)),
        !a.precedes(a),
{
}

/// Keys that share the year (the month) fall together once the shape drops
/// the other component.
pub proof fn lemma_dropped_component(year: i32, month: u32, other_year: i32, other_month: u32)
    ensures
        KeyShape::Year.key_of(year, month) == KeyShape::Year.key_of(year, other_month),
        KeyShape::Month.key_of(year, month) == KeyShape::Month.key_of(other_year, month),
        KeyShape::Year.key_of(year, month) == KeyShape::Year.key_of(other_year, other_month)
            <==> year == other_year,
        KeyShape::Month.key_of(year, month) == KeyShape::Month.key_of(other_year, other_month)
            <==> month == other_month,
        KeyShape::YearMonth.key_of(year, month) == KeyShape::YearMonth.key_of(
            other_year,
            other_month,
        ) <==> year == other_year && month == other_month,
{
}

} // verus!
