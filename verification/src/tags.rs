//! The tag store: learns tag usage frequency and offers a single
//! best-match autocomplete suggestion.
//!
//! Identity of a tag is case-insensitive (through the lowercase mapping of
//! `crate::text`); the stored spelling is the one first typed. The store
//! keeps its entries sorted by descending use count; entries of equal
//! count keep their earlier relative order (the sort is stable), so ties
//! favour the longer-established tag.

use vstd::prelude::*;
use crate::text::is_prefix_of;
use crate::text::is_substring_of;
use crate::text::lower_of;
use crate::text::lowercase;
use crate::text::str_contains;
use crate::text::str_starts_with;
use crate::timer::sat_sub;

verus! {

/// A learned tag: display spelling, day of last use, use count.
#[derive(Debug, PartialEq, Eq)]
pub struct TagInfo {
    pub name: String,
    /// Civil day of the most recent use.
    pub last_used: u64,
    pub count: u32,
}

impl Clone for TagInfo {
    /// An exact copy.
    fn clone(&self) -> (r: TagInfo)
        ensures
            r == *self,
    {
        TagInfo { name: self.name.clone(), last_used: self.last_used, count: self.count }
    }
}

impl TagInfo {
    /// A tag just used for the first time, on `today`.
    pub fn new(name: String, today: u64) -> (t: TagInfo)
        ensures
            t == (TagInfo { name, last_used: today, count: 1u32 }),
    {
        TagInfo { name, last_used: today, count: 1 }
    }
}

/// The abstract value of a `TagInfo`.
pub struct TagInfoV {
    pub name: Seq<char>,
    pub last_used: u64,
    pub count: u32,
}

impl View for TagInfo {
    type V = TagInfoV;

    open spec fn view(&self) -> TagInfoV {
        TagInfoV { name: self.name@, last_used: self.last_used, count: self.count }
    }
}

/// Entries are ordered by non-increasing use count.
pub open spec fn sorted_desc(s: Seq<TagInfo>) -> bool {
    forall|i: int, j: int| 0 <= i < j < s.len() ==> #[trigger] s[i].count >= #[trigger] s[j].count
}

/// Some entry's lowercased name is `l`.
pub open spec fn has_lower(s: Seq<TagInfo>, l: Seq<char>) -> bool {
    exists|i: int| 0 <= i < s.len() && lower_of((#[trigger] s[i]).name@) == l
}

/// No two entries share a lowercased name.
pub open spec fn unique_lowers(s: Seq<TagInfo>) -> bool {
    forall|i: int, j: int|
        0 <= i < j < s.len() ==> lower_of((#[trigger] s[i]).name@) != lower_of(
            (#[trigger] s[j]).name@,
        )
}

/// Index of the first entry satisfying `f`, or -1.
pub open spec fn spec_first_match(s: Seq<TagInfo>, f: spec_fn(TagInfo) -> bool) -> int
    decreases s.len(),
{
    if s.len() == 0 {
        -1
    } else if f(s[0]) {
        0
    } else {
        let r = spec_first_match(s.drop_first(), f);
        if r == -1 {
            -1
        } else {
            r + 1
        }
    }
}

/// What `spec_first_match` returns: -1 means no entry satisfies `f`;
/// otherwise it is the position of the first entry that does.
pub proof fn lemma_first_match(s: Seq<TagInfo>, f: spec_fn(TagInfo) -> bool)
    ensures
        spec_first_match(s, f) == -1 ==> forall|m: int| 0 <= m < s.len() ==> !f(#[trigger] s[m]),
        spec_first_match(s, f) != -1 ==> {
            let r = spec_first_match(s, f);
            &&& 0 <= r < s.len()
            &&& f(s[r])
            &&& forall|m: int| 0 <= m < r ==> !f(#[trigger] s[m])
        },
    decreases s.len(),
{
    if s.len() > 0 && !f(s[0]) {
        lemma_first_match(s.drop_first(), f);
        assert(forall|m: int|
            1 <= m < s.len() ==> #[trigger] s[m] == s.drop_first()[m - 1]);
    }
}

/// A found first match pins `spec_first_match` down.
proof fn lemma_first_match_is(s: Seq<TagInfo>, f: spec_fn(TagInfo) -> bool, i: int)
    requires
        0 <= i < s.len(),
        f(s[i]),
        forall|m: int| 0 <= m < i ==> !f(#[trigger] s[m]),
    ensures
        spec_first_match(s, f) == i,
{
    lemma_first_match(s, f);
    let r = spec_first_match(s, f);
    if r == -1 {
        assert(!f(s[i]));
    } else if r < i {
        assert(!f(s[r]));
    } else if r > i {
        assert(!f(s[i]));
    }
}

/// No match anywhere pins `spec_first_match` to -1.
proof fn lemma_first_match_none(s: Seq<TagInfo>, f: spec_fn(TagInfo) -> bool)
    requires
        forall|m: int| 0 <= m < s.len() ==> !f(#[trigger] s[m]),
    ensures
        spec_first_match(s, f) == -1,
{
    lemma_first_match(s, f);
    let r = spec_first_match(s, f);
    if r != -1 {
        assert(!f(s[r]));
    }
}

/// The entry bumped by one more use on `today`; the count saturates.
pub open spec fn spec_bump(t: TagInfo, today: u64) -> TagInfo {
    TagInfo {
        name: t.name,
        last_used: today,
        count: if t.count == u32::MAX {
            u32::MAX
        } else {
            (t.count + 1) as u32
        },
    }
}

/// Matches an entry whose lowercased name is `l`.
pub open spec fn matches_lower(l: Seq<char>) -> spec_fn(TagInfo) -> bool {
    |t: TagInfo| lower_of(t.name@) == l
}

/// One tag use: the first case-insensitive match is bumped; a name never
/// seen is appended with count one.
pub open spec fn spec_record_one(s: Seq<TagInfo>, name: String, today: u64) -> Seq<TagInfo> {
    let i = spec_first_match(s, matches_lower(lower_of(name@)));
    if i >= 0 {
        s.update(i, spec_bump(s[i], today))
    } else {
        s.push(TagInfo { name, last_used: today, count: 1u32 })
    }
}

/// A batch of tag uses, in order.
pub open spec fn spec_record_all(s: Seq<TagInfo>, names: Seq<String>, today: u64) -> Seq<TagInfo>
    decreases names.len(),
{
    if names.len() == 0 {
        s
    } else {
        spec_record_all(spec_record_one(s, names[0], today), names.drop_first(), today)
    }
}

/// Stable insertion into a count-descending sequence: the new entry goes
/// after every entry of equal or greater count.
pub open spec fn spec_insert_desc(s: Seq<TagInfo>, t: TagInfo) -> Seq<TagInfo>
    decreases s.len(),
{
    if s.len() == 0 {
        seq![t]
    } else if s.last().count >= t.count {
        s.push(t)
    } else {
        spec_insert_desc(s.drop_last(), t).push(s.last())
    }
}

/// Stable sort by descending count.
pub open spec fn spec_sort_desc(s: Seq<TagInfo>) -> Seq<TagInfo>
    decreases s.len(),
{
    if s.len() == 0 {
        Seq::empty()
    } else {
        spec_insert_desc(spec_sort_desc(s.drop_last()), s.last())
    }
}

/// The entries kept by the load-time cleanup: those used on or after the
/// cutoff day, in their original order.
pub open spec fn spec_keep_since(s: Seq<TagInfo>, cutoff: u64) -> Seq<TagInfo>
    decreases s.len(),
{
    if s.len() == 0 {
        Seq::empty()
    } else if s.last().last_used >= cutoff {
        spec_keep_since(s.drop_last(), cutoff).push(s.last())
    } else {
        spec_keep_since(s.drop_last(), cutoff)
    }
}

/// Everything in an insertion's result is the inserted entry or one of the
/// old ones.
proof fn lemma_insert_desc_contains(s: Seq<TagInfo>, t: TagInfo)
    ensures
        spec_insert_desc(s, t).len() == s.len() + 1,
        forall|x: TagInfo| #[trigger]
            spec_insert_desc(s, t).contains(x) <==> (s.contains(x) || x == t),
    decreases s.len(),
{
    if s.len() == 0 {
        assert forall|x: TagInfo| #[trigger] spec_insert_desc(s, t).contains(x) implies (
        s.contains(x) || x == t) by {
            assert(spec_insert_desc(s, t) == seq![t]);
        }
        assert(spec_insert_desc(s, t)[0] == t);
    } else if s.last().count >= t.count {
        assert forall|x: TagInfo| s.contains(x) || x == t implies #[trigger] spec_insert_desc(
            s,
            t,
        ).contains(x) by {
            if x == t {
                assert(s.push(t)[s.len() as int] == t);
            } else {
                let i = choose|i: int| 0 <= i < s.len() && s[i] == x;
                assert(s.push(t)[i] == x);
            }
        }
        assert forall|x: TagInfo| #[trigger] spec_insert_desc(s, t).contains(x) implies (
        s.contains(x) || x == t) by {
            let i = choose|i: int| 0 <= i < s.push(t).len() && s.push(t)[i] == x;
            if i < s.len() {
                assert(s[i] == x);
            }
        }
    } else {
        lemma_insert_desc_contains(s.drop_last(), t);
        let inner = spec_insert_desc(s.drop_last(), t);
        assert forall|x: TagInfo| #[trigger] spec_insert_desc(s, t).contains(x) implies (
        s.contains(x) || x == t) by {
            let i = choose|i: int|
                0 <= i < inner.push(s.last()).len() && inner.push(s.last())[i] == x;
            if i < inner.len() {
                assert(inner.contains(x));
                if s.drop_last().contains(x) {
                    let k = choose|k: int| 0 <= k < s.drop_last().len() && s.drop_last()[k] == x;
                    assert(s[k] == x);
                }
            } else {
                assert(x == s.last());
                assert(s[s.len() - 1] == x);
            }
        }
        assert forall|x: TagInfo| s.contains(x) || x == t implies #[trigger] spec_insert_desc(
            s,
            t,
        ).contains(x) by {
            if x == t || s.drop_last().contains(x) {
                assert(inner.contains(x));
                let k = choose|k: int| 0 <= k < inner.len() && inner[k] == x;
                assert(inner.push(s.last())[k] == x);
            } else {
                let i = choose|i: int| 0 <= i < s.len() && s[i] == x;
                if i < s.len() - 1 {
                    assert(s.drop_last()[i] == x);
                    assert(false);
                }
                assert(x == s.last());
                assert(inner.push(s.last())[inner.len() as int] == x);
            }
        }
    }
}

/// Insertion into a sorted sequence keeps it sorted.
proof fn lemma_insert_desc_sorted(s: Seq<TagInfo>, t: TagInfo)
    requires
        sorted_desc(s),
    ensures
        sorted_desc(spec_insert_desc(s, t)),
    decreases s.len(),
{
    if s.len() == 0 {
    } else if s.last().count >= t.count {
        assert forall|i: int, j: int|
            0 <= i < j < s.push(t).len() implies #[trigger] s.push(t)[i].count
            >= #[trigger] s.push(t)[j].count by {
            if j < s.len() {
            } else {
                if i < s.len() - 1 {
                    assert(s[i].count >= s[s.len() - 1].count);
                }
            }
        }
    } else {
        assert(sorted_desc(s.drop_last())) by {
            assert forall|i: int, j: int|
                0 <= i < j < s.drop_last().len() implies #[trigger] s.drop_last()[i].count
                >= #[trigger] s.drop_last()[j].count by {
                assert(s[i].count >= s[j].count);
            }
        }
        lemma_insert_desc_sorted(s.drop_last(), t);
        lemma_insert_desc_contains(s.drop_last(), t);
        let inner = spec_insert_desc(s.drop_last(), t);
        assert forall|i: int, j: int|
            0 <= i < j < inner.push(s.last()).len() implies #[trigger] inner.push(
            s.last(),
        )[i].count >= #[trigger] inner.push(s.last())[j].count by {
            if j < inner.len() {
            } else {
                let x = inner[i];
                assert(inner.contains(x));
                if s.drop_last().contains(x) {
                    let k = choose|k: int|
                        0 <= k < s.drop_last().len() && s.drop_last()[k] == x;
                    assert(s[k].count >= s[s.len() - 1].count);
                } else {
                    assert(x == t);
                }
            }
        }
    }
}

/// The lowercased names present after an insertion.
proof fn lemma_insert_desc_has_lower(s: Seq<TagInfo>, t: TagInfo)
    ensures
        forall|l: Seq<char>| #[trigger]
            has_lower(spec_insert_desc(s, t), l) <==> (has_lower(s, l) || l == lower_of(t.name@)),
{
    lemma_insert_desc_contains(s, t);
    assert forall|l: Seq<char>| #[trigger]
        has_lower(spec_insert_desc(s, t), l) implies (has_lower(s, l) || l == lower_of(
        t.name@,
    )) by {
        let r = spec_insert_desc(s, t);
        let i = choose|i: int| 0 <= i < r.len() && lower_of(r[i].name@) == l;
        assert(r.contains(r[i]));
        if s.contains(r[i]) {
            let k = choose|k: int| 0 <= k < s.len() && s[k] == r[i];
            assert(lower_of(s[k].name@) == l);
        }
    }
    assert forall|l: Seq<char>| has_lower(s, l) || l == lower_of(t.name@) implies #[trigger]
    has_lower(spec_insert_desc(s, t), l) by {
        let r = spec_insert_desc(s, t);
        if has_lower(s, l) {
            let i = choose|i: int| 0 <= i < s.len() && lower_of(s[i].name@) == l;
            assert(s.contains(s[i]));
            assert(r.contains(s[i]));
            let k = choose|k: int| 0 <= k < r.len() && r[k] == s[i];
            assert(lower_of(r[k].name@) == l);
        } else {
            assert(r.contains(t));
            let k = choose|k: int| 0 <= k < r.len() && r[k] == t;
            assert(lower_of(r[k].name@) == l);
        }
    }
}

/// Inserting an entry whose lowercased name is absent keeps the names
/// pairwise distinct.
proof fn lemma_insert_desc_unique(s: Seq<TagInfo>, t: TagInfo)
    requires
        unique_lowers(s),
        !has_lower(s, lower_of(t.name@)),
    ensures
        unique_lowers(spec_insert_desc(s, t)),
    decreases s.len(),
{
    if s.len() == 0 {
    } else if s.last().count >= t.count {
        assert forall|i: int, j: int| 0 <= i < j < s.push(t).len() implies lower_of(
            (#[trigger] s.push(t)[i]).name@,
        ) != lower_of((#[trigger] s.push(t)[j]).name@) by {
            if j == s.len() {
                assert(!(lower_of(s[i].name@) == lower_of(t.name@)));
            }
        }
    } else {
        assert(unique_lowers(s.drop_last())) by {
            assert forall|i: int, j: int| 0 <= i < j < s.drop_last().len() implies lower_of(
                (#[trigger] s.drop_last()[i]).name@,
            ) != lower_of((#[trigger] s.drop_last()[j]).name@) by {
                assert(lower_of(s[i].name@) != lower_of(s[j].name@));
            }
        }
        assert(!has_lower(s.drop_last(), lower_of(t.name@))) by {
            if has_lower(s.drop_last(), lower_of(t.name@)) {
                let i = choose|i: int|
                    0 <= i < s.drop_last().len() && lower_of(s.drop_last()[i].name@) == lower_of(
                        t.name@,
                    );
                assert(lower_of(s[i].name@) == lower_of(t.name@));
            }
        }
        lemma_insert_desc_unique(s.drop_last(), t);
        lemma_insert_desc_has_lower(s.drop_last(), t);
        let inner = spec_insert_desc(s.drop_last(), t);
        assert forall|i: int, j: int| 0 <= i < j < inner.push(s.last()).len() implies lower_of(
            (#[trigger] inner.push(s.last())[i]).name@,
        ) != lower_of((#[trigger] inner.push(s.last())[j]).name@) by {
            if j == inner.len() {
                let l = lower_of(inner[i].name@);
                assert(has_lower(inner, l));
                if has_lower(s.drop_last(), l) {
                    let k = choose|k: int|
                        0 <= k < s.drop_last().len() && lower_of(s.drop_last()[k].name@) == l;
                    assert(lower_of(s[k].name@) != lower_of(s.last().name@));
                } else {
                    assert(l == lower_of(t.name@));
                    assert(!(lower_of(s.last().name@) == lower_of(t.name@))) by {
                        if lower_of(s.last().name@) == lower_of(t.name@) {
                            assert(lower_of(s[s.len() - 1].name@) == lower_of(t.name@));
                        }
                    }
                }
            }
        }
    }
}

/// The sort yields a count-descending sequence.
pub proof fn lemma_sort_desc_sorted(s: Seq<TagInfo>)
    ensures
        sorted_desc(spec_sort_desc(s)),
    decreases s.len(),
{
    if s.len() > 0 {
        lemma_sort_desc_sorted(s.drop_last());
        lemma_insert_desc_sorted(spec_sort_desc(s.drop_last()), s.last());
    }
}

/// The sort neither adds nor removes lowercased names.
proof fn lemma_sort_desc_has_lower(s: Seq<TagInfo>)
    ensures
        forall|l: Seq<char>| #[trigger] has_lower(spec_sort_desc(s), l) <==> has_lower(s, l),
    decreases s.len(),
{
    if s.len() > 0 {
        lemma_sort_desc_has_lower(s.drop_last());
        lemma_insert_desc_has_lower(spec_sort_desc(s.drop_last()), s.last());
        assert forall|l: Seq<char>| #[trigger]
            has_lower(spec_sort_desc(s), l) <==> has_lower(s, l) by {
            assert(has_lower(spec_sort_desc(s), l) <==> (has_lower(s.drop_last(), l) || l
                == lower_of(s.last().name@)));
            if has_lower(s.drop_last(), l) {
                let i = choose|i: int|
                    0 <= i < s.drop_last().len() && lower_of(s.drop_last()[i].name@) == l;
                assert(lower_of(s[i].name@) == l);
            }
            if l == lower_of(s.last().name@) {
                assert(lower_of(s[s.len() - 1].name@) == l);
            }
            if has_lower(s, l) && !(l == lower_of(s.last().name@)) {
                let i = choose|i: int| 0 <= i < s.len() && lower_of(s[i].name@) == l;
                assert(lower_of(s.drop_last()[i].name@) == l);
            }
        }
    }
}

/// The sort keeps lowercased names pairwise distinct.
pub proof fn lemma_sort_desc_unique(s: Seq<TagInfo>)
    requires
        unique_lowers(s),
    ensures
        unique_lowers(spec_sort_desc(s)),
    decreases s.len(),
{
    if s.len() > 0 {
        assert(unique_lowers(s.drop_last())) by {
            assert forall|i: int, j: int| 0 <= i < j < s.drop_last().len() implies lower_of(
                (#[trigger] s.drop_last()[i]).name@,
            ) != lower_of((#[trigger] s.drop_last()[j]).name@) by {
                assert(lower_of(s[i].name@) != lower_of(s[j].name@));
            }
        }
        lemma_sort_desc_unique(s.drop_last());
        lemma_sort_desc_has_lower(s.drop_last());
        assert(!has_lower(spec_sort_desc(s.drop_last()), lower_of(s.last().name@))) by {
            if has_lower(s.drop_last(), lower_of(s.last().name@)) {
                let i = choose|i: int|
                    0 <= i < s.drop_last().len() && lower_of(s.drop_last()[i].name@) == lower_of(
                        s.last().name@,
                    );
                assert(lower_of(s[i].name@) == lower_of(s[s.len() - 1].name@));
                assert(false);
            }
        }
        lemma_insert_desc_unique(spec_sort_desc(s.drop_last()), s.last());
    }
}

/// One recorded use keeps lowercased names pairwise distinct.
proof fn lemma_record_one_unique(s: Seq<TagInfo>, name: String, today: u64)
    requires
        unique_lowers(s),
    ensures
        unique_lowers(spec_record_one(s, name, today)),
{
    let f = matches_lower(lower_of(name@));
    let i = spec_first_match(s, f);
    lemma_first_match(s, f);
    if i >= 0 {
        let r = s.update(i, spec_bump(s[i], today));
        assert forall|a: int, b: int| 0 <= a < b < r.len() implies lower_of(
            (#[trigger] r[a]).name@,
        ) != lower_of((#[trigger] r[b]).name@) by {
            assert(r[a].name == s[a].name);
            assert(r[b].name == s[b].name);
        }
    } else {
        let t = TagInfo { name, last_used: today, count: 1u32 };
        assert forall|a: int, b: int| 0 <= a < b < s.push(t).len() implies lower_of(
            (#[trigger] s.push(t)[a]).name@,
        ) != lower_of((#[trigger] s.push(t)[b]).name@) by {
            if b == s.len() {
                assert(!f(s[a]));
            }
        }
    }
}

/// A whole batch keeps lowercased names pairwise distinct.
proof fn lemma_record_all_unique(s: Seq<TagInfo>, names: Seq<String>, today: u64)
    requires
        unique_lowers(s),
    ensures
        unique_lowers(spec_record_all(s, names, today)),
    decreases names.len(),
{
    if names.len() > 0 {
        lemma_record_one_unique(s, names[0], today);
        lemma_record_all_unique(spec_record_one(s, names[0], today), names.drop_first(), today);
    }
}

/// Recording names one more at the end extends the batch.
proof fn lemma_record_all_snoc(s: Seq<TagInfo>, names: Seq<String>, name: String, today: u64)
    ensures
        spec_record_all(s, names.push(name), today) == spec_record_one(
            spec_record_all(s, names, today),
            name,
            today,
        ),
    decreases names.len(),
{
    if names.len() == 0 {
        let s1 = spec_record_one(s, name, today);
        assert(names.push(name)[0] == name);
        assert(names.push(name).drop_first() =~= Seq::<String>::empty());
        assert(spec_record_all(s, names.push(name), today) == spec_record_all(
            s1,
            names.push(name).drop_first(),
            today,
        ));
        assert(spec_record_all(s1, Seq::<String>::empty(), today) == s1);
    } else {
        let s1 = spec_record_one(s, names[0], today);
        assert(names.push(name)[0] == names[0]);
        assert(names.push(name).drop_first() =~= names.drop_first().push(name));
        assert(spec_record_all(s, names.push(name), today) == spec_record_all(
            s1,
            names.drop_first().push(name),
            today,
        ));
        lemma_record_all_snoc(s1, names.drop_first(), name, today);
    }
}

/// The cleanup keeps a count-descending sequence count-descending.
proof fn lemma_keep_since_sorted(s: Seq<TagInfo>, cutoff: u64)
    requires
        sorted_desc(s),
    ensures
        sorted_desc(spec_keep_since(s, cutoff)),
        forall|x: TagInfo| #[trigger] spec_keep_since(s, cutoff).contains(x) ==> s.contains(x),
    decreases s.len(),
{
    if s.len() > 0 {
        assert(sorted_desc(s.drop_last())) by {
            assert forall|i: int, j: int|
                0 <= i < j < s.drop_last().len() implies #[trigger] s.drop_last()[i].count
                >= #[trigger] s.drop_last()[j].count by {
                assert(s[i].count >= s[j].count);
            }
        }
        lemma_keep_since_sorted(s.drop_last(), cutoff);
        let p = spec_keep_since(s.drop_last(), cutoff);
        assert forall|x: TagInfo| #[trigger] p.contains(x) implies s.contains(x) by {
            assert(s.drop_last().contains(x));
            let k = choose|k: int| 0 <= k < s.drop_last().len() && s.drop_last()[k] == x;
            assert(s[k] == x);
        }
        if s.last().last_used >= cutoff {
            assert forall|i: int, j: int|
                0 <= i < j < p.push(s.last()).len() implies #[trigger] p.push(
                s.last(),
            )[i].count >= #[trigger] p.push(s.last())[j].count by {
                if j == p.len() {
                    let x = p[i];
                    assert(p.contains(x));
                    let k = choose|k: int| 0 <= k < s.len() && s[k] == x;
                    if k < s.len() - 1 {
                        assert(s[k].count >= s[s.len() - 1].count);
                    }
                }
            }
            assert forall|x: TagInfo| #[trigger]
                p.push(s.last()).contains(x) implies s.contains(x) by {
                let k = choose|k: int| 0 <= k < p.push(s.last()).len() && p.push(s.last())[k] == x;
                if k < p.len() {
                    assert(p.contains(x));
                } else {
                    assert(s[s.len() - 1] == x);
                }
            }
        }
    }
}

/// The cleanup keeps lowercased names pairwise distinct.
proof fn lemma_keep_since_unique(s: Seq<TagInfo>, cutoff: u64)
    requires
        unique_lowers(s),
    ensures
        unique_lowers(spec_keep_since(s, cutoff)),
    decreases s.len(),
{
    if s.len() > 0 {
        assert(unique_lowers(s.drop_last())) by {
            assert forall|i: int, j: int| 0 <= i < j < s.drop_last().len() implies lower_of(
                (#[trigger] s.drop_last()[i]).name@,
            ) != lower_of((#[trigger] s.drop_last()[j]).name@) by {
                assert(lower_of(s[i].name@) != lower_of(s[j].name@));
            }
        }
        lemma_keep_since_unique(s.drop_last(), cutoff);
        let p = spec_keep_since(s.drop_last(), cutoff);
        if s.last().last_used >= cutoff {
            assert forall|i: int, j: int| 0 <= i < j < p.push(s.last()).len() implies lower_of(
                (#[trigger] p.push(s.last())[i]).name@,
            ) != lower_of((#[trigger] p.push(s.last())[j]).name@) by {
                if j == p.len() {
                    let x = p[i];
                    assert(p.contains(x)) by {
                        assert(p.push(s.last())[i] == p[i]);
                    }
                    lemma_keep_contains(s.drop_last(), cutoff);
                    let k = choose|k: int|
                        0 <= k < s.drop_last().len() && s.drop_last()[k] == x;
                    assert(lower_of(s[k].name@) != lower_of(s[s.len() - 1].name@));
                }
            }
        }
    }
}

/// Everything the cleanup keeps was present before.
proof fn lemma_keep_contains(s: Seq<TagInfo>, cutoff: u64)
    ensures
        forall|x: TagInfo| #[trigger] spec_keep_since(s, cutoff).contains(x) ==> s.contains(x),
    decreases s.len(),
{
    if s.len() > 0 {
        lemma_keep_contains(s.drop_last(), cutoff);
        let p = spec_keep_since(s.drop_last(), cutoff);
        assert forall|x: TagInfo| #[trigger]
            spec_keep_since(s, cutoff).contains(x) implies s.contains(x) by {
            if s.last().last_used >= cutoff {
                let k = choose|k: int|
                    0 <= k < p.push(s.last()).len() && p.push(s.last())[k] == x;
                if k < p.len() {
                    assert(p.contains(x));
                    assert(s.drop_last().contains(x));
                    let m = choose|m: int| 0 <= m < s.drop_last().len() && s.drop_last()[m] == x;
                    assert(s[m] == x);
                } else {
                    assert(s[s.len() - 1] == x);
                }
            } else {
                assert(p.contains(x));
                assert(s.drop_last().contains(x));
                let m = choose|m: int| 0 <= m < s.drop_last().len() && s.drop_last()[m] == x;
                assert(s[m] == x);
            }
        }
    }
}

/// The tag store.
///
/// Invariant (`wf`): entries are sorted by non-increasing count and no two
/// entries share a lowercased name.
#[derive(Debug, PartialEq, Eq)]
pub struct TagStore {
    pub tags: Vec<TagInfo>,
}

impl Clone for TagStore {
    /// A copy with the same entries.
    fn clone(&self) -> (r: TagStore)
        ensures
            r.tags@ == self.tags@,
    {
        let mut tags: Vec<TagInfo> = Vec::new();
        let mut i: usize = 0;
        let len = self.tags.len();
        while i < len
            invariant
                i <= len,
                len == self.tags@.len(),
                tags@ =~= self.tags@.take(i as int),
            decreases len - i,
        {
            tags.push(self.tags[i].clone());
            proof {
                assert(tags@ =~= self.tags@.take(i as int + 1));
            }
            i = i + 1;
        }
        proof {
            assert(tags@ =~= self.tags@);
        }
        TagStore { tags }
    }
}

impl Default for TagStore {
    /// An empty store.
    fn default() -> (s: TagStore)
        ensures
            s.wf(),
            s.tags@.len() == 0,
    {
        TagStore { tags: Vec::new() }
    }
}

impl TagStore {
    /// Structural invariant of the store.
    pub open spec fn wf(self) -> bool {
        sorted_desc(self.tags@) && unique_lowers(self.tags@)
    }

    /// Index of the entry matching `lname` case-insensitively, if any.
    fn find_by_lower(&self, lname: &String) -> (r: Option<usize>)
        ensures
            match r {
                Some(i) => i < self.tags@.len() && spec_first_match(
                    self.tags@,
                    matches_lower(lname@),
                ) == i as int,
                None => spec_first_match(self.tags@, matches_lower(lname@)) == -1,
            },
    {
        let len = self.tags.len();
        let mut i: usize = 0;
        while i < len
            invariant
                i <= len,
                len == self.tags@.len(),
                forall|m: int|
                    0 <= m < i ==> lower_of((#[trigger] self.tags@[m]).name@) != lname@,
            decreases len - i,
        {
            let tl = lowercase(self.tags[i].name.as_str());
            if tl == *lname {
                proof {
                    let f = matches_lower(lname@);
                    assert(f(self.tags@[i as int]));
                    assert(forall|m: int| 0 <= m < i ==> !f(#[trigger] self.tags@[m]));
                    lemma_first_match_is(self.tags@, f, i as int);
                }
                return Some(i);
            }
            i = i + 1;
        }
        proof {
            let f = matches_lower(lname@);
            assert(forall|m: int| 0 <= m < self.tags@.len() ==> !f(#[trigger] self.tags@[m]));
            lemma_first_match_none(self.tags@, f);
        }
        None
    }

    /// Records one use of `name` on `today`, per `spec_record_one`.
    fn record_one(&mut self, name: &String, today: u64)
        ensures
            final(self).tags@ == spec_record_one(old(self).tags@, *name, today),
    {
        let lname = lowercase(name.as_str());
        proof {
            lemma_first_match(self.tags@, matches_lower(lname@));
        }
        match self.find_by_lower(&lname) {
            Some(i) => {
                let c = self.tags[i].count;
                let bumped = if c < u32::MAX {
                    c + 1
                } else {
                    c
                };
                self.tags[i].count = bumped;
                self.tags[i].last_used = today;
                proof {
                    assert(self.tags@ =~= old(self).tags@.update(
                        i as int,
                        spec_bump(old(self).tags@[i as int], today),
                    ));
                }
            },
            None => {
                self.tags.push(TagInfo { name: name.clone(), last_used: today, count: 1 });
            },
        }
    }

    /// Inserts `t` into the count-descending entries, after every entry of
    /// equal or greater count (stable).
    fn insert_sorted(&mut self, t: TagInfo)
        ensures
            final(self).tags@ == spec_insert_desc(old(self).tags@, t),
    {
        let len = self.tags.len();
        let mut j: usize = len;
        while j > 0 && self.tags[j - 1].count < t.count
            invariant
                j <= len,
                len == self.tags@.len(),
                self.tags@ == old(self).tags@,
                forall|m: int| j <= m < len ==> (#[trigger] self.tags@[m]).count < t.count,
            decreases j,
        {
            j = j - 1;
        }
        self.tags.insert(j, t);
        proof {
            lemma_insert_desc_at(old(self).tags@, t, j as int);
            assert(self.tags@ =~= old(self).tags@.take(j as int) + seq![t] + old(
                self,
            ).tags@.skip(j as int));
        }
    }

    /// Re-sorts the entries by descending count (stable).
    fn sort_by_count(&mut self)
        ensures
            final(self).tags@ == spec_sort_desc(old(self).tags@),
    {
        let len = self.tags.len();
        let mut sorted = TagStore { tags: Vec::new() };
        let mut i: usize = 0;
        while i < len
            invariant
                i <= len,
                len == self.tags@.len(),
                self.tags@ == old(self).tags@,
                sorted.tags@ == spec_sort_desc(self.tags@.take(i as int)),
            decreases len - i,
        {
            proof {
                assert(self.tags@.take(i as int + 1).drop_last() =~= self.tags@.take(i as int));
                assert(self.tags@.take(i as int + 1).last() == self.tags@[i as int]);
            }
            sorted.insert_sorted(self.tags[i].clone());
            i = i + 1;
        }
        proof {
            assert(self.tags@.take(len as int) =~= self.tags@);
        }
        self.tags = sorted.tags;
    }

    /// Records a batch of tag uses on `today`: each name bumps its
    /// case-insensitive match or is learned with count one, and the
    /// entries are then re-sorted by descending count, ties keeping their
    /// earlier order.
    pub fn record_usage(&mut self, names: &Vec<String>, today: u64)
        requires
            old(self).wf(),
        ensures
            final(self).wf(),
            final(self).tags@ == spec_sort_desc(
                spec_record_all(old(self).tags@, names@, today),
            ),
    {
        let n = names.len();
        let mut k: usize = 0;
        while k < n
            invariant
                k <= n,
                n == names@.len(),
                self.tags@ == spec_record_all(old(self).tags@, names@.take(k as int), today),
            decreases n - k,
        {
            proof {
                lemma_record_all_snoc(old(self).tags@, names@.take(k as int), names@[k as int], today);
                assert(names@.take(k as int).push(names@[k as int]) =~= names@.take(k as int + 1));
            }
            self.record_one(&names[k], today);
            k = k + 1;
        }
        proof {
            assert(names@.take(n as int) =~= names@);
        }
        self.sort_by_count();
        proof {
            lemma_record_all_unique(old(self).tags@, names@, today);
            lemma_sort_desc_sorted(spec_record_all(old(self).tags@, names@, today));
            lemma_sort_desc_unique(spec_record_all(old(self).tags@, names@, today));
        }
    }

    /// The load-time cleanup: drops entries last used more than thirty
    /// days before `today`, keeping the rest in order.
    pub fn cleanup_old_tags(&mut self, today: u64)
        requires
            old(self).wf(),
        ensures
            final(self).wf(),
            final(self).tags@ == spec_keep_since(old(self).tags@, sat_sub(today, 30)),
    {
        let cutoff = if today >= 30 {
            today - 30
        } else {
            0
        };
        let len = self.tags.len();
        let mut kept: Vec<TagInfo> = Vec::new();
        let mut i: usize = 0;
        while i < len
            invariant
                i <= len,
                len == self.tags@.len(),
                self.tags@ == old(self).tags@,
                cutoff == sat_sub(today, 30),
                kept@ == spec_keep_since(self.tags@.take(i as int), cutoff),
            decreases len - i,
        {
            proof {
                assert(self.tags@.take(i as int + 1).drop_last() =~= self.tags@.take(i as int));
                assert(self.tags@.take(i as int + 1).last() == self.tags@[i as int]);
            }
            if self.tags[i].last_used >= cutoff {
                kept.push(self.tags[i].clone());
            }
            i = i + 1;
        }
        proof {
            assert(self.tags@.take(len as int) =~= self.tags@);
            lemma_keep_since_sorted(self.tags@, cutoff);
            lemma_keep_since_unique(self.tags@, cutoff);
        }
        self.tags = kept;
    }

    /// The first `count` tag names in store order (most used first).
    pub fn recent_tags(&self, count: usize) -> (r: Vec<&str>)
        ensures
            r@.len() == if count <= self.tags@.len() {
                count as int
            } else {
                self.tags@.len() as int
            },
            forall|i: int| 0 <= i < r@.len() ==> (#[trigger] r@[i])@ == self.tags@[i].name@,
    {
        let len = self.tags.len();
        let m = if count <= len {
            count
        } else {
            len
        };
        let mut r: Vec<&str> = Vec::new();
        let mut i: usize = 0;
        while i < m
            invariant
                i <= m,
                m <= len,
                len == self.tags@.len(),
                r@.len() == i,
                forall|k: int| 0 <= k < i ==> (#[trigger] r@[k])@ == self.tags@[k].name@,
            decreases m - i,
        {
            r.push(self.tags[i].name.as_str());
            i = i + 1;
        }
        r
    }

    /// The autocomplete suggestion for `partial`: nothing for an empty
    /// input; otherwise the name of the first entry (in store order, so
    /// most used first) whose lowercased name has the lowercased input as
    /// a prefix; failing that, the first whose lowercased name contains
    /// it; failing that, nothing.
    pub fn suggest(&self, partial: &str) -> (r: Option<&str>)
        ensures
            ({
                let p = lower_of(partial@);
                let pre = spec_first_match(self.tags@, matches_prefix(p));
                let sub = spec_first_match(self.tags@, matches_substring(p));
                if partial@.len() == 0 {
                    r is None
                } else if pre >= 0 {
                    r matches Some(name) && name@ == self.tags@[pre].name@
                } else if sub >= 0 {
                    r matches Some(name) && name@ == self.tags@[sub].name@
                } else {
                    r is None
                }
            }),
    {
        if partial.unicode_len() == 0 {
            return None;
        }
        let plower = lowercase(partial);
        let len = self.tags.len();

        let mut i: usize = 0;
        while i < len
            invariant
                i <= len,
                len == self.tags@.len(),
                partial@.len() > 0,
                plower@ == lower_of(partial@),
                forall|m: int|
                    0 <= m < i ==> !is_prefix_of(
                        lower_of(partial@),
                        lower_of((#[trigger] self.tags@[m]).name@),
                    ),
            decreases len - i,
        {
            let tl = lowercase(self.tags[i].name.as_str());
            if str_starts_with(tl.as_str(), plower.as_str()) {
                proof {
                    let f = matches_prefix(lower_of(partial@));
                    assert(f(self.tags@[i as int]));
                    assert(forall|m: int| 0 <= m < i ==> !f(#[trigger] self.tags@[m]));
                    lemma_first_match_is(self.tags@, f, i as int);
                }
                return Some(self.tags[i].name.as_str());
            }
            i = i + 1;
        }
        proof {
            let f = matches_prefix(lower_of(partial@));
            assert(forall|m: int| 0 <= m < self.tags@.len() ==> !f(#[trigger] self.tags@[m]));
            lemma_first_match_none(self.tags@, f);
        }

        let mut i: usize = 0;
        while i < len
            invariant
                i <= len,
                len == self.tags@.len(),
                partial@.len() > 0,
                plower@ == lower_of(partial@),
                spec_first_match(self.tags@, matches_prefix(lower_of(partial@))) == -1,
                forall|m: int|
                    0 <= m < i ==> !is_substring_of(
                        lower_of(partial@),
                        lower_of((#[trigger] self.tags@[m]).name@),
                    ),
            decreases len - i,
        {
            let tl = lowercase(self.tags[i].name.as_str());
            if str_contains(tl.as_str(), plower.as_str()) {
                proof {
                    let f = matches_substring(lower_of(partial@));
                    assert(f(self.tags@[i as int]));
                    assert(forall|m: int| 0 <= m < i ==> !f(#[trigger] self.tags@[m]));
                    lemma_first_match_is(self.tags@, f, i as int);
                }
                return Some(self.tags[i].name.as_str());
            }
            i = i + 1;
        }
        proof {
            let f = matches_substring(lower_of(partial@));
            assert(forall|m: int| 0 <= m < self.tags@.len() ==> !f(#[trigger] self.tags@[m]));
            lemma_first_match_none(self.tags@, f);
        }
        None
    }
}

/// Matches an entry whose lowercased name has `p` as a prefix.
pub open spec fn matches_prefix(p: Seq<char>) -> spec_fn(TagInfo) -> bool {
    |t: TagInfo| is_prefix_of(p, lower_of(t.name@))
}

/// Matches an entry whose lowercased name contains `p`.
pub open spec fn matches_substring(p: Seq<char>) -> spec_fn(TagInfo) -> bool {
    |t: TagInfo| is_substring_of(p, lower_of(t.name@))
}

/// Where a stable descending insertion lands: given that everything from
/// `j` on has a smaller count and the entry before `j` (if any) does not,
/// the insertion splits the sequence at `j`.
proof fn lemma_insert_desc_at(s: Seq<TagInfo>, t: TagInfo, j: int)
    requires
        0 <= j <= s.len(),
        forall|m: int| j <= m < s.len() ==> (#[trigger] s[m]).count < t.count,
        j > 0 ==> s[j - 1].count >= t.count,
    ensures
        spec_insert_desc(s, t) == s.take(j) + seq![t] + s.skip(j),
    decreases s.len(),
{
    if s.len() == 0 {
        assert(spec_insert_desc(s, t) =~= s.take(j) + seq![t] + s.skip(j));
    } else if j == s.len() {
        assert(s.last().count >= t.count);
        assert(spec_insert_desc(s, t) =~= s.take(j) + seq![t] + s.skip(j));
    } else {
        assert(s[s.len() - 1].count < t.count);
        assert(forall|m: int|
            j <= m < s.drop_last().len() ==> (#[trigger] s.drop_last()[m]).count < t.count);
        assert(j > 0 ==> s.drop_last()[j - 1].count >= t.count);
        lemma_insert_desc_at(s.drop_last(), t, j);
        assert(spec_insert_desc(s, t) =~= s.take(j) + seq![t] + s.skip(j)) by {
            assert(spec_insert_desc(s, t) == (s.drop_last().take(j) + seq![t]
                + s.drop_last().skip(j)).push(s.last()));
        }
    }
}

} // verus!

// === tag entry helpers for typed input ===

verus! {

/// Position of the last `#` in the input, or -1.
pub open spec fn spec_last_hash(s: Seq<char>) -> int
    decreases s.len(),
{
    if s.len() == 0 {
        -1
    } else if s.last() == '#' {
        s.len() - 1
    } else {
        spec_last_hash(s.drop_last())
    }
}

/// The partial tag being typed: everything after the last `#`, provided
/// it is nonempty and contains no space (a space means the tag was
/// finished).
pub open spec fn spec_partial_tag(s: Seq<char>) -> Option<Seq<char>> {
    let i = spec_last_hash(s);
    if i >= 0 {
        let p = s.subrange(i + 1, s.len() as int);
        if p.len() > 0 && !p.contains(' ') {
            Some(p)
        } else {
            None
        }
    } else {
        None
    }
}

/// What the input after accepting a suggestion reads: everything through
/// the last `#`, then the suggested name and a space; without a `#` the
/// input is left alone.
pub open spec fn spec_accepted(s: Seq<char>, suggestion: Seq<char>) -> Seq<char> {
    let i = spec_last_hash(s);
    if i >= 0 {
        s.subrange(0, i + 1) + suggestion + seq![' ']
    } else {
        s
    }
}

/// Finds the last `#` of `cs`, per `spec_last_hash`.
fn find_last_hash(cs: &Vec<char>) -> (r: Option<usize>)
    ensures
        match r {
            Some(i) => i < cs@.len() && spec_last_hash(cs@) == i as int,
            None => spec_last_hash(cs@) == -1,
        },
{
    let mut j = cs.len();
    proof {
        assert(cs@.take(cs@.len() as int) =~= cs@);
    }
    while j > 0
        invariant
            j <= cs@.len(),
            spec_last_hash(cs@) == spec_last_hash(cs@.take(j as int)),
        decreases j,
    {
        proof {
            assert(cs@.take(j as int).drop_last() =~= cs@.take(j as int - 1));
            assert(cs@.take(j as int).last() == cs@[j as int - 1]);
        }
        if cs[j - 1] == '#' {
            return Some(j - 1);
        }
        j = j - 1;
    }
    proof {
        assert(cs@.take(0) =~= Seq::<char>::empty());
    }
    None
}

/// The partial tag being typed in `buffer`, per `spec_partial_tag`.
pub fn partial_tag_of(buffer: &str) -> (r: Option<String>)
    ensures
        match (r, spec_partial_tag(buffer@)) {
            (Some(ref x), Some(p)) => x@ == p,
            (None, None) => true,
            _ => false,
        },
{
    let cs = crate::text::str_to_chars(buffer);
    let idx = match find_last_hash(&cs) {
        None => {
            return None;
        },
        Some(i) => i,
    };
    let len = cs.len();
    if idx + 1 == len {
        return None;
    }
    let mut p: Vec<char> = Vec::new();
    let mut m = idx + 1;
    while m < len
        invariant
            idx < m <= len,
            len == cs@.len(),
            cs@ == buffer@,
            spec_last_hash(cs@) == idx as int,
            p@ == cs@.subrange(idx as int + 1, m as int),
            forall|q: int| idx + 1 <= q < m ==> cs@[q] != ' ',
        decreases len - m,
    {
        if cs[m] == ' ' {
            proof {
                let part = cs@.subrange(idx as int + 1, len as int);
                assert(part[m - idx - 1] == ' ');
            }
            return None;
        }
        p.push(cs[m]);
        proof {
            assert(p@ =~= cs@.subrange(idx as int + 1, m as int + 1));
        }
        m = m + 1;
    }
    proof {
        let part = cs@.subrange(idx as int + 1, len as int);
        assert(!part.contains(' ')) by {
            if part.contains(' ') {
                let q = choose|q: int| 0 <= q < part.len() && part[q] == ' ';
                assert(cs@[idx + 1 + q] == ' ');
            }
        }
        assert(p@ =~= part);
    }
    Some(crate::text::chars_to_string(&p))
}

/// Replaces the partial tag after the last `#` of `buffer` by the
/// accepted suggestion and a trailing space, per `spec_accepted`.
pub fn accept_suggestion(buffer: &str, suggestion: &str) -> (r: String)
    ensures
        r@ == spec_accepted(buffer@, suggestion@),
{
    let cs = crate::text::str_to_chars(buffer);
    let idx = match find_last_hash(&cs) {
        None => {
            return buffer.to_owned();
        },
        Some(i) => i,
    };
    let mut out: Vec<char> = Vec::new();
    let mut m: usize = 0;
    let len = cs.len();
    while m <= idx
        invariant
            m <= idx + 1,
            idx < len,
            len == cs@.len(),
            cs@ == buffer@,
            out@ == cs@.subrange(0, m as int),
        decreases idx + 1 - m,
    {
        out.push(cs[m]);
        proof {
            assert(out@ =~= cs@.subrange(0, m as int + 1));
        }
        m = m + 1;
    }
    let sugg = crate::text::str_to_chars(suggestion);
    let slen = sugg.len();
    let ghost base = out@;
    let mut q: usize = 0;
    while q < slen
        invariant
            q <= slen,
            slen == sugg@.len(),
            sugg@ == suggestion@,
            out@ == base + sugg@.take(q as int),
        decreases slen - q,
    {
        out.push(sugg[q]);
        proof {
            assert(out@ =~= base + sugg@.take(q as int + 1));
        }
        q = q + 1;
    }
    out.push(' ');
    proof {
        assert(sugg@.take(slen as int) =~= sugg@);
        assert(out@ =~= spec_accepted(buffer@, suggestion@));
    }
    crate::text::chars_to_string(&out)
}

} // verus!

// === restoring the invariant on a loaded store ===

verus! {

/// The entries with a duplicated lowercased name dropped, keeping the
/// first occurrence of each, in order.
pub open spec fn spec_dedup(s: Seq<TagInfo>) -> Seq<TagInfo>
    decreases s.len(),
{
    if s.len() == 0 {
        Seq::empty()
    } else {
        let p = spec_dedup(s.drop_last());
        if has_lower(s.drop_last(), lower_of(s.last().name@)) {
            p
        } else {
            p.push(s.last())
        }
    }
}

/// Deduplication keeps exactly the lowercased names that were there.
proof fn lemma_dedup_has_lower(s: Seq<TagInfo>)
    ensures
        forall|l: Seq<char>| #[trigger] has_lower(spec_dedup(s), l) <==> has_lower(s, l),
    decreases s.len(),
{
    if s.len() > 0 {
        lemma_dedup_has_lower(s.drop_last());
        let p = spec_dedup(s.drop_last());
        assert forall|l: Seq<char>| #[trigger]
            has_lower(spec_dedup(s), l) <==> has_lower(s, l) by {
            if has_lower(s.drop_last(), l) {
                let i = choose|i: int|
                    0 <= i < s.drop_last().len() && lower_of(s.drop_last()[i].name@) == l;
                assert(lower_of(s[i].name@) == l);
            }
            if l == lower_of(s.last().name@) {
                assert(lower_of(s[s.len() - 1].name@) == l);
                if !has_lower(s.drop_last(), l) {
                    assert(p.push(s.last())[p.len() as int] == s.last());
                    assert(has_lower(p.push(s.last()), l));
                }
            }
            if has_lower(spec_dedup(s), l) && !has_lower(s.drop_last(), l) {
                let i = choose|i: int|
                    0 <= i < spec_dedup(s).len() && lower_of(spec_dedup(s)[i].name@) == l;
                if i < p.len() {
                    assert(has_lower(p, l));
                }
            }
            if has_lower(s, l) && !(l == lower_of(s.last().name@)) {
                let i = choose|i: int| 0 <= i < s.len() && lower_of(s[i].name@) == l;
                assert(lower_of(s.drop_last()[i].name@) == l);
            }
            if has_lower(p, l) {
                let i = choose|i: int| 0 <= i < p.len() && lower_of(p[i].name@) == l;
                if !has_lower(s.drop_last(), lower_of(s.last().name@)) {
                    assert(p.push(s.last())[i] == p[i]);
                    assert(has_lower(p.push(s.last()), l));
                }
            }
        }
    }
}

/// Deduplication leaves the lowercased names pairwise distinct.
proof fn lemma_dedup_unique(s: Seq<TagInfo>)
    ensures
        unique_lowers(spec_dedup(s)),
    decreases s.len(),
{
    if s.len() > 0 {
        lemma_dedup_unique(s.drop_last());
        lemma_dedup_has_lower(s.drop_last());
        let p = spec_dedup(s.drop_last());
        if !has_lower(s.drop_last(), lower_of(s.last().name@)) {
            assert forall|i: int, j: int| 0 <= i < j < p.push(s.last()).len() implies lower_of(
                (#[trigger] p.push(s.last())[i]).name@,
            ) != lower_of((#[trigger] p.push(s.last())[j]).name@) by {
                if j == p.len() {
                    let l = lower_of(p[i].name@);
                    assert(has_lower(p, l));
                    assert(has_lower(s.drop_last(), l));
                }
            }
        }
    }
}

/// Finds the first entry of `tags` matching `lname` case-insensitively.
fn find_by_lower_in(tags: &Vec<TagInfo>, lname: &String) -> (r: Option<usize>)
    ensures
        match r {
            Some(i) => i < tags@.len() && lower_of(tags@[i as int].name@) == lname@,
            None => !has_lower(tags@, lname@),
        },
{
    let len = tags.len();
    let mut i: usize = 0;
    while i < len
        invariant
            i <= len,
            len == tags@.len(),
            forall|m: int| 0 <= m < i ==> lower_of((#[trigger] tags@[m]).name@) != lname@,
        decreases len - i,
    {
        let tl = lowercase(tags[i].name.as_str());
        if tl == *lname {
            return Some(i);
        }
        i = i + 1;
    }
    proof {
        if has_lower(tags@, lname@) {
            let m = choose|m: int| 0 <= m < tags@.len() && lower_of(tags@[m].name@) == lname@;
        }
    }
    None
}

impl TagStore {
    /// Restores the store invariant on a value read back from a persisted
    /// record: entries whose lowercased name repeats an earlier one are
    /// dropped (first spelling wins) and the rest are re-sorted by
    /// descending count, ties keeping their order.
    pub fn normalize(&mut self)
        ensures
            final(self).wf(),
            final(self).tags@ == spec_sort_desc(spec_dedup(old(self).tags@)),
    {
        let len = self.tags.len();
        let mut kept: Vec<TagInfo> = Vec::new();
        let mut i: usize = 0;
        while i < len
            invariant
                i <= len,
                len == self.tags@.len(),
                self.tags@ == old(self).tags@,
                kept@ == spec_dedup(self.tags@.take(i as int)),
                forall|l: Seq<char>| #[trigger]
                    has_lower(kept@, l) <==> has_lower(self.tags@.take(i as int), l),
            decreases len - i,
        {
            proof {
                assert(self.tags@.take(i as int + 1).drop_last() =~= self.tags@.take(i as int));
                assert(self.tags@.take(i as int + 1).last() == self.tags@[i as int]);
            }
            let lname = lowercase(self.tags[i].name.as_str());
            let ghost kept_before = kept@;
            match find_by_lower_in(&kept, &lname) {
                Some(_) => {
                    proof {
                        assert(has_lower(kept@, lower_of(self.tags@[i as int].name@)));
                    }
                },
                None => {
                    kept.push(self.tags[i].clone());
                },
            }
            proof {
                let prefix = self.tags@.take(i as int + 1);
                let t = self.tags@[i as int];
                assert forall|l: Seq<char>| #[trigger]
                    has_lower(kept@, l) <==> has_lower(prefix, l) by {
                    if has_lower(kept_before, l) {
                        let m = choose|m: int|
                            0 <= m < kept_before.len() && lower_of(kept_before[m].name@) == l;
                        if kept@.len() > kept_before.len() {
                            assert(kept@[m] == kept_before[m]);
                        }
                        assert(has_lower(kept@, l));
                    }
                    if has_lower(kept@, l) {
                        let m = choose|m: int|
                            0 <= m < kept@.len() && lower_of(kept@[m].name@) == l;
                        if m < kept_before.len() {
                            assert(kept_before[m] == kept@[m]);
                            assert(has_lower(kept_before, l));
                            let q = choose|q: int|
                                0 <= q < i && lower_of(
                                    (#[trigger] self.tags@.take(i as int)[q]).name@,
                                ) == l;
                            assert(lower_of(prefix[q].name@) == l);
                        } else {
                            assert(kept@[m] == t);
                            assert(lower_of(prefix[i as int].name@) == l);
                        }
                    }
                    if has_lower(prefix, l) {
                        let q = choose|q: int| 0 <= q < prefix.len() && lower_of(prefix[q].name@) == l;
                        if q < i {
                            assert(lower_of(self.tags@.take(i as int)[q].name@) == l);
                            assert(has_lower(kept_before, l));
                        } else {
                            assert(l == lower_of(t.name@));
                            if has_lower(kept_before, l) {
                            } else {
                                assert(!has_lower(self.tags@.take(i as int), l));
                                assert(kept@[kept@.len() - 1] == t);
                            }
                        }
                    }
                }
            }
            i = i + 1;
        }
        proof {
            assert(self.tags@.take(len as int) =~= self.tags@);
            lemma_dedup_unique(self.tags@);
        }
        self.tags = kept;
        self.sort_by_count();
        proof {
            lemma_sort_desc_sorted(spec_dedup(old(self).tags@));
            lemma_sort_desc_unique(spec_dedup(old(self).tags@));
        }
    }
}

} // verus!
