//! Grouping of a daily series by calendar month: for each month present, in
//! month order, the first row of that month and the row with its latest date.
//!
//! The months are gathered in a `BTreeMap<(i32, u32), _>` keyed by (year,
//! month), whose keys come out in month order. vstd gives the map's `entry`
//! API no specification, so a month is read with `get` and written with
//! `insert`.

use std::collections::BTreeMap;

use vstd::laws_cmp::obeys_cmp;
use vstd::prelude::*;
use vstd::std_specs::btree::{increasing_seq, key_obeys_cmp_spec, spec_keys_iter};
use vstd::std_specs::cmp::OrdSpec;
use vstd::std_specs::iter::IteratorSpec;

verus! {

/// A calendar date; ordered by year, then month, then day.
#[derive(Debug, Clone, Copy, PartialEq, Eq, Structural)]
pub struct CalendarDate {
    pub year: i32,
    pub month: u32,
    pub day: u32,
}

/// One month of a daily series: `first` is the index of the first row of the
/// month, `last` the index of the row with the month's latest date (the
/// earliest such row when the latest date repeats).
#[derive(Debug, Clone, Copy, PartialEq, Eq, Structural)]
pub struct MonthSpan {
    pub year: i32,
    pub month: u32,
    pub first: usize,
    pub last: usize,
}

/// The (year, month) a date falls in.
pub open spec fn key_of(d: CalendarDate) -> (i32, u32) {
    (d.year, d.month)
}

/// The (year, month) a span stands for.
pub open spec fn span_key(s: MonthSpan) -> (i32, u32) {
    (s.year, s.month)
}

/// Month `a` comes before month `b`.
pub open spec fn key_before(a: (i32, u32), b: (i32, u32)) -> bool {
    a.0 < b.0 || (a.0 == b.0 && a.1 < b.1)
}

/// Date `a` comes before date `b`.
pub open spec fn date_before(a: CalendarDate, b: CalendarDate) -> bool {
    a.year < b.year || (a.year == b.year && (a.month < b.month || (a.month == b.month && a.day < b.day)))
}

/// `s` describes its month correctly among the first `n` rows of `d`.
#[verifier::opaque]
pub open spec fn span_fits(d: Seq<CalendarDate>, s: MonthSpan, n: int) -> bool {
    &&& s.first < n
    &&& s.last < n
    &&& key_of(d[s.first as int]) == span_key(s)
    &&& key_of(d[s.last as int]) == span_key(s)
    &&& forall|j: int| 0 <= j < s.first ==> key_of(#[trigger] d[j]) != span_key(s)
    &&& forall|j: int| 0 <= j < n && key_of(#[trigger] d[j]) == span_key(s) ==> !date_before(d[s.last as int], d[j])
    &&& forall|j: int| 0 <= j < s.last && key_of(#[trigger] d[j]) == span_key(s) ==> date_before(d[j], d[s.last as int])
}

/// Date `d` falls in the month of span `s`.
pub open spec fn in_month(s: MonthSpan, d: CalendarDate) -> bool {
    s.year == d.year && s.month == d.month
}

/// Some span of `g` is the month of date `d`.
pub open spec fn month_listed(g: Seq<MonthSpan>, d: CalendarDate) -> bool {
    exists|k: int| 0 <= k < g.len() && #[trigger] in_month(g[k], d)
}

/// `g` is the month grouping of the first `n` rows of `d`: one span per month
/// present, in strictly increasing month order, each describing its month.
pub open spec fn month_groups(d: Seq<CalendarDate>, g: Seq<MonthSpan>, n: int) -> bool {
    &&& 0 <= n <= d.len()
    &&& forall|a: int, b: int| 0 <= a < b < g.len() ==> key_before(span_key(#[trigger] g[a]), span_key(#[trigger] g[b]))
    &&& forall|k: int| 0 <= k < g.len() ==> span_fits(d, #[trigger] g[k], n)
    &&& forall|j: int| 0 <= j < n ==> month_listed(g, #[trigger] d[j])
}

proof fn lemma_other_span(d: Seq<CalendarDate>, s: MonthSpan, i: int)
    requires
        span_fits(d, s, i),
        0 <= i < d.len(),
        span_key(s) != key_of(d[i]),
    ensures
        span_fits(d, s, i + 1),
{
    reveal(span_fits);
}

proof fn lemma_same_span_kept(d: Seq<CalendarDate>, s: MonthSpan, i: int)
    requires
        span_fits(d, s, i),
        0 <= i < d.len(),
        span_key(s) == key_of(d[i]),
        !date_before(d[s.last as int], d[i]),
    ensures
        span_fits(d, s, i + 1),
{
    reveal(span_fits);
}

proof fn lemma_same_span_moved(d: Seq<CalendarDate>, s: MonthSpan, i: int)
    requires
        span_fits(d, s, i),
        0 <= i < d.len(),
        i <= usize::MAX,
        span_key(s) == key_of(d[i]),
        date_before(d[s.last as int], d[i]),
    ensures
        span_fits(d, MonthSpan { last: i as usize, ..s }, i + 1),
{
    reveal(span_fits);
    let old_last = s.last as int;
    let t = MonthSpan { last: i as usize, ..s };
    assert forall|j: int| 0 <= j < i + 1 && key_of(#[trigger] d[j]) == span_key(t) implies !date_before(d[i], d[j]) by {
        if j < i {
            assert(!date_before(d[old_last], d[j]));
        }
    }
    assert forall|j: int| 0 <= j < i && key_of(#[trigger] d[j]) == span_key(t) implies date_before(d[j], d[i]) by {
        assert(!date_before(d[old_last], d[j]));
    }
}

proof fn lemma_new_span(d: Seq<CalendarDate>, i: int)
    requires
        0 <= i < d.len(),
        i <= usize::MAX,
        forall|j: int| 0 <= j < i ==> key_of(#[trigger] d[j]) != key_of(d[i]),
    ensures
        span_fits(d, MonthSpan { year: d[i].year, month: d[i].month, first: i as usize, last: i as usize }, i + 1),
{
    reveal(span_fits);
}

proof fn lemma_first_row(d: Seq<CalendarDate>, s: MonthSpan, n: int)
    requires
        span_fits(d, s, n),
    ensures
        0 <= s.first < n,
        key_of(d[s.first as int]) == span_key(s),
{
    reveal(span_fits);
}

proof fn lemma_span_bounds(d: Seq<CalendarDate>, s: MonthSpan, n: int)
    requires
        span_fits(d, s, n),
    ensures
        s.first < n,
        s.last < n,
        key_of(d[s.last as int]) == span_key(s),
{
    reveal(span_fits);
}

/// The span that a map entry from a month to its (first, last) rows stands for.
pub open spec fn span_at(key: (i32, u32), rows: (usize, usize)) -> MonthSpan {
    MonthSpan { year: key.0, month: key.1, first: rows.0, last: rows.1 }
}

/// `m` holds, for every month among the first `n` rows of `d`, the first row
/// of that month and the row with its latest date, and nothing else.
spec fn map_groups(d: Seq<CalendarDate>, m: Map<(i32, u32), (usize, usize)>, n: int) -> bool {
    &&& 0 <= n <= d.len()
    &&& forall|key: (i32, u32)| #[trigger] m.contains_key(key) ==> span_fits(d, span_at(key, m[key]), n)
    &&& forall|j: int| 0 <= j < n ==> m.contains_key(key_of(#[trigger] d[j]))
}

proof fn lemma_map_update(
    d: Seq<CalendarDate>,
    m: Map<(i32, u32), (usize, usize)>,
    i: int,
    rows: (usize, usize),
)
    requires
        map_groups(d, m, i),
        i < d.len(),
        span_fits(d, span_at(key_of(d[i]), rows), i + 1),
    ensures
        map_groups(d, m.insert(key_of(d[i]), rows), i + 1),
{
    let k = key_of(d[i]);
    let m2 = m.insert(k, rows);
    assert forall|key: (i32, u32)| #[trigger] m2.contains_key(key) implies span_fits(d, span_at(key, m2[key]), i + 1) by {
        if key != k {
            assert(span_key(span_at(key, m[key])) == key);
            lemma_other_span(d, span_at(key, m[key]), i);
        }
    }
    assert forall|j: int| 0 <= j < i + 1 implies m2.contains_key(key_of(#[trigger] d[j])) by {
        if j < i {
            assert(m.contains_key(key_of(d[j])));
        }
    }
}

proof fn lemma_map_keep(d: Seq<CalendarDate>, m: Map<(i32, u32), (usize, usize)>, i: int)
    requires
        map_groups(d, m, i),
        i < d.len(),
        m.contains_key(key_of(d[i])),
        !date_before(d[m[key_of(d[i])].1 as int], d[i]),
    ensures
        map_groups(d, m, i + 1),
{
    let k = key_of(d[i]);
    lemma_same_span_kept(d, span_at(k, m[k]), i);
    lemma_map_update(d, m, i, m[k]);
    assert(m.insert(k, m[k]) =~= m);
}

proof fn lemma_map_open(d: Seq<CalendarDate>, m: Map<(i32, u32), (usize, usize)>, i: int)
    requires
        map_groups(d, m, i),
        i < d.len(),
        i <= usize::MAX,
        !m.contains_key(key_of(d[i])),
    ensures
        map_groups(d, m.insert(key_of(d[i]), (i as usize, i as usize)), i + 1),
{
    assert forall|j: int| 0 <= j < i implies key_of(#[trigger] d[j]) != key_of(d[i]) by {
        assert(m.contains_key(key_of(d[j])));
    }
    lemma_new_span(d, i);
    assert(span_at(key_of(d[i]), (i as usize, i as usize)) == MonthSpan {
        year: d[i].year,
        month: d[i].month,
        first: i as usize,
        last: i as usize,
    });
    lemma_map_update(d, m, i, (i as usize, i as usize));
}

/// Months, as (year, month) pairs, are keys whose order the map's
/// specification covers.
proof fn lemma_month_keys_ordered()
    ensures
        obeys_cmp::<(i32, u32)>(),
        key_obeys_cmp_spec::<(i32, u32)>(),
{
    broadcast use vstd::laws_cmp::group_laws_cmp;
    broadcast use vstd::std_specs::btree::axiom_key_obeys_cmp_spec_meaning;

}

/// The keys of a month map come out in strictly increasing month order.
proof fn lemma_keys_in_month_order(m: &BTreeMap<(i32, u32), (usize, usize)>)
    ensures
        forall|a: int, b: int|
            0 <= a < b < spec_keys_iter(m).remaining().len() ==> key_before(
                *#[trigger] spec_keys_iter(m).remaining()[a],
                *#[trigger] spec_keys_iter(m).remaining()[b],
            ),
{
    broadcast use vstd::laws_cmp::group_laws_cmp;
    broadcast use vstd::std_specs::btree::axiom_spec_keys_iter;
    broadcast use vstd::std_specs::btree::axiom_increasing_seq_meaning;

    let s = spec_keys_iter(m).remaining();
    assert(increasing_seq(s));
    assert forall|a: int, b: int| 0 <= a < b < s.len() implies key_before(*#[trigger] s[a], *#[trigger] s[b]) by {
        assert(obeys_cmp::<&(i32, u32)>());
        assert((&s[a]).cmp_spec(&&s[b]) is Less);
        assert((*s[a]).cmp_spec(&*s[b]) is Less);
    }
}

fn date_precedes(a: &CalendarDate, b: &CalendarDate) -> (r: bool)
    ensures
        r == date_before(*a, *b),
{
    a.year < b.year || (a.year == b.year && (a.month < b.month || (a.month == b.month && a.day < b.day)))
}

proof fn lemma_groups_from_keys(
    d: Seq<CalendarDate>,
    m: Map<(i32, u32), (usize, usize)>,
    keys: Seq<(i32, u32)>,
    g: Seq<MonthSpan>,
    n: int,
)
    requires
        n == d.len(),
        map_groups(d, m, n),
        keys.to_set() == m.dom(),
        forall|a: int, b: int| 0 <= a < b < keys.len() ==> key_before(#[trigger] keys[a], #[trigger] keys[b]),
        g.len() == keys.len(),
        forall|k: int| 0 <= k < g.len() ==> #[trigger] g[k] == span_at(keys[k], m[keys[k]]),
    ensures
        month_groups(d, g, n),
{
    assert forall|a: int, b: int| 0 <= a < b < g.len() implies key_before(span_key(#[trigger] g[a]), span_key(#[trigger] g[b])) by {
        assert(span_key(g[a]) == keys[a]);
        assert(span_key(g[b]) == keys[b]);
    }
    assert forall|k: int| 0 <= k < g.len() implies span_fits(d, #[trigger] g[k], n) by {
        assert(keys.contains(keys[k]));
        assert(m.contains_key(keys[k]));
    }
    assert forall|j: int| 0 <= j < n implies month_listed(g, #[trigger] d[j]) by {
        assert(m.contains_key(key_of(d[j])));
        assert(keys.to_set().contains(key_of(d[j])));
        let w = choose|i: int| 0 <= i < keys.len() && keys[i] === key_of(d[j]);
        assert(g[w] === span_at(keys[w], m[keys[w]]));
        assert(keys[w].0 == d[j].year && keys[w].1 == d[j].month);
        assert(in_month(g[w], d[j]));
    }
}

/// Groups a daily series by calendar month. The series need not be sorted.
pub fn group_by_month(dates: &Vec<CalendarDate>) -> (r: Vec<MonthSpan>)
    ensures
        month_groups(dates@, r@, dates@.len() as int),
{
    broadcast use vstd::std_specs::btree::axiom_spec_keys_iter;

    proof {
        lemma_month_keys_ordered();
    }
    let ghost d = dates@;
    let mut months: BTreeMap<(i32, u32), (usize, usize)> = BTreeMap::new();
    let mut i: usize = 0;
    while i < dates.len()
        invariant
            d == dates@,
            i <= dates.len(),
            map_groups(d, months@, i as int),
        decreases dates.len() - i,
    {
        let date = dates[i];
        let key = (date.year, date.month);
        assert(key == key_of(d[i as int]));
        match months.get(&key) {
            Some(rows) => {
                let (first, last) = *rows;
                proof {
                    lemma_span_bounds(d, span_at(key, (first, last)), i as int);
                }
                if date_precedes(&dates[last], &date) {
                    proof {
                        lemma_same_span_moved(d, span_at(key, (first, last)), i as int);
                        assert(MonthSpan { last: i as usize, ..span_at(key, (first, last)) } == span_at(key, (first, i)));
                        lemma_map_update(d, months@, i as int, (first, i));
                    }
                    months.insert(key, (first, i));
                } else {
                    proof {
                        lemma_map_keep(d, months@, i as int);
                    }
                }
            },
            None => {
                proof {
                    lemma_map_open(d, months@, i as int);
                }
                months.insert(key, (i, i));
            },
        }
        i = i + 1;
    }
    proof {
        lemma_keys_in_month_order(&months);
    }
    let ghost keys = spec_keys_iter(&months).remaining();
    let mut g: Vec<MonthSpan> = Vec::new();
    for key in it: months.keys()
        invariant
            it.seq() == keys,
            keys == spec_keys_iter(&months).remaining(),
            keys.unref().to_set() == months@.dom(),
            map_groups(d, months@, d.len() as int),
            forall|a: int, b: int| 0 <= a < b < keys.len() ==> key_before(*#[trigger] keys[a], *#[trigger] keys[b]),
            g.len() == it.index(),
            forall|k: int| 0 <= k < g.len() ==> #[trigger] g[k] == span_at(*keys[k], months@[*keys[k]]),
    {
        proof {
            assert(keys.unref()[it.index() as int] == *key);
            assert(keys.unref().contains(*key));
            assert(months@.contains_key(*key));
        }
        let rows = *months.get(key).unwrap();
        g.push(span_at_exec(*key, rows));
    }
    proof {
        let ks = keys.unref();
        assert forall|a: int, b: int| 0 <= a < b < ks.len() implies key_before(#[trigger] ks[a], #[trigger] ks[b]) by {
            assert(ks[a] == *keys[a]);
            assert(ks[b] == *keys[b]);
        }
        assert forall|k: int| 0 <= k < g@.len() implies #[trigger] g@[k] == span_at(ks[k], months@[ks[k]]) by {
            assert(g[k] == span_at(*keys[k], months@[*keys[k]]));
        }
        lemma_groups_from_keys(d, months@, ks, g@, d.len() as int);
    }
    g
}

fn span_at_exec(key: (i32, u32), rows: (usize, usize)) -> (s: MonthSpan)
    ensures
        s == span_at(key, rows),
{
    MonthSpan { year: key.0, month: key.1, first: rows.0, last: rows.1 }
}

} // verus!

verus! {

/// Within every span the first row comes no later than the latest-dated
/// row, and no two spans stand for the same month.
pub proof fn lemma_spans_well_formed(d: Seq<CalendarDate>, g: Seq<MonthSpan>, n: int)
    requires
        month_groups(d, g, n),
    ensures
        forall|k: int| 0 <= k < g.len() ==> (#[trigger] g[k]).first <= g[k].last,
        forall|k: int| 0 <= k < g.len() ==> !date_before(d[(#[trigger] g[k]).last as int], d[g[k].first as int]),
        forall|a: int, b: int| 0 <= a < g.len() && 0 <= b < g.len() && a != b ==> span_key(#[trigger] g[a]) != span_key(#[trigger] g[b]),
{
    reveal(span_fits);
    assert forall|k: int| 0 <= k < g.len() implies (#[trigger] g[k]).first <= g[k].last by {
        assert(span_fits(d, g[k], n));
    }
    assert forall|k: int| 0 <= k < g.len() implies !date_before(d[(#[trigger] g[k]).last as int], d[g[k].first as int]) by {
        assert(span_fits(d, g[k], n));
    }
    assert forall|a: int, b: int| 0 <= a < g.len() && 0 <= b < g.len() && a != b implies span_key(#[trigger] g[a]) != span_key(#[trigger] g[b]) by {
        if a < b {
            assert(key_before(span_key(g[a]), span_key(g[b])));
        } else {
            assert(key_before(span_key(g[b]), span_key(g[a])));
        }
    }
}

/// Some span of `s` stands for month `k`.
pub open spec fn has_key(s: Seq<MonthSpan>, k: (i32, u32)) -> bool {
    exists|b: int| 0 <= b < s.len() && span_key(#[trigger] s[b]) == k
}

/// The spans' months strictly increase.
pub open spec fn keys_increasing(s: Seq<MonthSpan>) -> bool {
    forall|a: int, b: int| 0 <= a < b < s.len() ==> key_before(span_key(#[trigger] s[a]), span_key(#[trigger] s[b]))
}

proof fn lemma_sorted_keys_equal(s1: Seq<MonthSpan>, s2: Seq<MonthSpan>)
    requires
        keys_increasing(s1),
        keys_increasing(s2),
        forall|a: int| 0 <= a < s1.len() ==> has_key(s2, span_key(#[trigger] s1[a])),
        forall|b: int| 0 <= b < s2.len() ==> has_key(s1, span_key(#[trigger] s2[b])),
    ensures
        s1.len() == s2.len(),
        forall|a: int| 0 <= a < s1.len() ==> span_key(#[trigger] s1[a]) == span_key(s2[a]),
    decreases s1.len(),
{
    if s1.len() == 0 {
        if s2.len() > 0 {
            assert(has_key(s1, span_key(s2[0])));
        }
    } else if s2.len() == 0 {
        assert(has_key(s2, span_key(s1[0])));
    } else {
        assert(has_key(s2, span_key(s1[0])));
        assert(has_key(s1, span_key(s2[0])));
        let j = choose|b: int| 0 <= b < s2.len() && span_key(#[trigger] s2[b]) == span_key(s1[0]);
        let i = choose|b: int| 0 <= b < s1.len() && span_key(#[trigger] s1[b]) == span_key(s2[0]);
        if j > 0 {
            assert(key_before(span_key(s2[0]), span_key(s2[j])));
            if i > 0 {
                assert(key_before(span_key(s1[0]), span_key(s1[i])));
            }
        }
        assert(span_key(s1[0]) == span_key(s2[0]));
        let t1 = s1.drop_first();
        let t2 = s2.drop_first();
        assert(keys_increasing(t1)) by {
            assert forall|a: int, b: int| 0 <= a < b < t1.len() implies key_before(span_key(#[trigger] t1[a]), span_key(#[trigger] t1[b])) by {
                assert(key_before(span_key(s1[a + 1]), span_key(s1[b + 1])));
            }
        }
        assert(keys_increasing(t2)) by {
            assert forall|a: int, b: int| 0 <= a < b < t2.len() implies key_before(span_key(#[trigger] t2[a]), span_key(#[trigger] t2[b])) by {
                assert(key_before(span_key(s2[a + 1]), span_key(s2[b + 1])));
            }
        }
        assert forall|a: int| 0 <= a < t1.len() implies has_key(t2, span_key(#[trigger] t1[a])) by {
            assert(t1[a] == s1[a + 1]);
            assert(has_key(s2, span_key(s1[a + 1])));
            let b = choose|b: int| 0 <= b < s2.len() && span_key(#[trigger] s2[b]) == span_key(s1[a + 1]);
            assert(key_before(span_key(s1[0]), span_key(s1[a + 1])));
            assert(b != 0);
            assert(span_key(t2[b - 1]) == span_key(t1[a]));
        }
        assert forall|b: int| 0 <= b < t2.len() implies has_key(t1, span_key(#[trigger] t2[b])) by {
            assert(t2[b] == s2[b + 1]);
            assert(has_key(s1, span_key(s2[b + 1])));
            let a = choose|a: int| 0 <= a < s1.len() && span_key(#[trigger] s1[a]) == span_key(s2[b + 1]);
            assert(key_before(span_key(s2[0]), span_key(s2[b + 1])));
            assert(a != 0);
            assert(span_key(t1[a - 1]) == span_key(t2[b]));
        }
        lemma_sorted_keys_equal(t1, t2);
        assert forall|a: int| 0 <= a < s1.len() implies span_key(#[trigger] s1[a]) == span_key(s2[a]) by {
            if a > 0 {
                assert(t1[a - 1] == s1[a]);
                assert(t2[a - 1] == s2[a]);
                assert(span_key(t1[a - 1]) == span_key(t2[a - 1]));
            }
        }
    }
}

proof fn lemma_span_determined(d: Seq<CalendarDate>, s: MonthSpan, t: MonthSpan, n: int)
    requires
        0 <= n <= d.len(),
        span_fits(d, s, n),
        span_fits(d, t, n),
        span_key(s) == span_key(t),
    ensures
        s == t,
{
    reveal(span_fits);
    if s.first < t.first {
        assert(key_of(d[s.first as int]) == span_key(t));
    }
    if t.first < s.first {
        assert(key_of(d[t.first as int]) == span_key(s));
    }
    if s.last < t.last {
        assert(date_before(d[s.last as int], d[t.last as int]));
        assert(!date_before(d[s.last as int], d[t.last as int]));
    }
    if t.last < s.last {
        assert(date_before(d[t.last as int], d[s.last as int]));
        assert(!date_before(d[t.last as int], d[s.last as int]));
    }
}

/// The month grouping of a series is unique: any two groupings of the same
/// rows are the same.
pub proof fn lemma_month_groups_unique(d: Seq<CalendarDate>, g1: Seq<MonthSpan>, g2: Seq<MonthSpan>, n: int)
    requires
        month_groups(d, g1, n),
        month_groups(d, g2, n),
    ensures
        g1 == g2,
{
    assert forall|a: int| 0 <= a < g1.len() implies has_key(g2, span_key(#[trigger] g1[a])) by {
        lemma_first_row(d, g1[a], n);
        let j = g1[a].first as int;
        let b = choose|b: int| 0 <= b < g2.len() && #[trigger] in_month(g2[b], d[j]);
    }
    assert forall|b: int| 0 <= b < g2.len() implies has_key(g1, span_key(#[trigger] g2[b])) by {
        lemma_first_row(d, g2[b], n);
        let j = g2[b].first as int;
        let a = choose|a: int| 0 <= a < g1.len() && #[trigger] in_month(g1[a], d[j]);
    }
    lemma_sorted_keys_equal(g1, g2);
    assert forall|a: int| 0 <= a < g1.len() implies g1[a] == g2[a] by {
        lemma_span_determined(d, g1[a], g2[a], n);
    }
    assert(g1 =~= g2);
}

} // verus!
