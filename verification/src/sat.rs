//! The satellite store: multi-valued string attributes keyed by an owning
//! row's id.
//!
//! Labels, characters, keywords and template tags are all sets of strings
//! attached to one owner. They share this one verified table shape: a flat
//! sequence of `(owner, value)` rows, unique as pairs, mutated only by
//! whole-set replacement.

use vstd::prelude::*;
use crate::error::Error;
use crate::seqs::{lemma_filter_push, lemma_take_succ};
use crate::types::{str_eq, strs_sv};

verus! {

/// One satellite row: `value` is attached to the row owned by `owner`.
#[derive(Debug, PartialEq, Eq)]
#[verifier::ext_equal]
pub struct SatRow {
    pub owner: String,
    pub value: String,
}

impl Clone for SatRow {
    fn clone(&self) -> (r: Self)
        ensures
            r == *self,
    {
        SatRow { owner: self.owner.clone(), value: self.value.clone() }
    }
}

/// The values attached to `owner`, as stored rows, in storage order.
pub open spec fn rows_of(rows: Seq<SatRow>, owner: Seq<char>) -> Seq<SatRow> {
    rows.filter(|r: SatRow| r.owner@ == owner)
}

/// The values attached to `owner`, as strings, in storage order.
pub open spec fn values_of(rows: Seq<SatRow>, owner: Seq<char>) -> Seq<String> {
    rows_of(rows, owner).map_values(|r: SatRow| r.value)
}

/// Whether no two rows carry the same `(owner, value)` pair: the uniqueness
/// constraint of a satellite set.
pub open spec fn sat_rows_unique(rows: Seq<SatRow>) -> bool {
    forall|i: int, j: int|
        0 <= i < j < rows.len() ==> !(rows[i].owner@ == rows[j].owner@ && rows[i].value@
            == rows[j].value@)
}

/// The rows that survive removing one owner's whole set.
pub open spec fn sat_without_owner(rows: Seq<SatRow>, owner: Seq<char>) -> Seq<SatRow>
    decreases rows.len(),
{
    if rows.len() == 0 {
        Seq::empty()
    } else {
        let rest = sat_without_owner(rows.drop_last(), owner);
        if rows.last().owner@ != owner {
            rest.push(rows.last())
        } else {
            rest
        }
    }
}

/// The rows that survive removing every owner named in `dead`.
pub open spec fn sat_keep_alive(rows: Seq<SatRow>, dead: Seq<Seq<char>>) -> Seq<SatRow>
    decreases rows.len(),
{
    if rows.len() == 0 {
        Seq::empty()
    } else {
        let rest = sat_keep_alive(rows.drop_last(), dead);
        if !dead.contains(rows.last().owner@) {
            rest.push(rows.last())
        } else {
            rest
        }
    }
}

/// One more row survives the removal exactly when its owner is not named.
pub proof fn lemma_sat_without_owner_push(rows: Seq<SatRow>, owner: Seq<char>, x: SatRow)
    ensures
        sat_without_owner(rows.push(x), owner) == if x.owner@ != owner {
            sat_without_owner(rows, owner).push(x)
        } else {
            sat_without_owner(rows, owner)
        },
{
    assert(rows.push(x).drop_last() =~= rows);
    assert(rows.push(x).last() == x);
}

/// One more row survives the removal exactly when its owner is not dead.
pub proof fn lemma_sat_keep_alive_push(rows: Seq<SatRow>, dead: Seq<Seq<char>>, x: SatRow)
    ensures
        sat_keep_alive(rows.push(x), dead) == if !dead.contains(x.owner@) {
            sat_keep_alive(rows, dead).push(x)
        } else {
            sat_keep_alive(rows, dead)
        },
{
    assert(rows.push(x).drop_last() =~= rows);
    assert(rows.push(x).last() == x);
}

/// What the surviving rows are: original rows whose owner is not dead, all
/// of them, still unique.
pub proof fn lemma_sat_keep_alive_props(rows: Seq<SatRow>, dead: Seq<Seq<char>>)
    ensures
        forall|i: int|
            0 <= i < sat_keep_alive(rows, dead).len() ==> !dead.contains(
                (#[trigger] sat_keep_alive(rows, dead)[i]).owner@,
            ) && rows.contains(sat_keep_alive(rows, dead)[i]),
        forall|i: int|
            0 <= i < rows.len() && !dead.contains((#[trigger] rows[i]).owner@)
                ==> sat_keep_alive(rows, dead).contains(rows[i]),
        sat_rows_unique(rows) ==> sat_rows_unique(sat_keep_alive(rows, dead)),
    decreases rows.len(),
{
    if rows.len() > 0 {
        let t = rows.drop_last();
        lemma_sat_keep_alive_props(t, dead);
        let f = sat_keep_alive(rows, dead);
        let ft = sat_keep_alive(t, dead);
        assert forall|i: int| 0 <= i < f.len() implies !dead.contains(
            (#[trigger] f[i]).owner@,
        ) && rows.contains(f[i]) by {
            if i < ft.len() {
                assert(f[i] == ft[i]);
                assert(t.contains(ft[i]));
                let k = t.lemma_contains_to_index(ft[i]);
                assert(rows[k] == f[i]);
            } else {
                assert(f[i] == rows.last());
                assert(rows[rows.len() - 1] == f[i]);
            }
        }
        assert forall|i: int|
            0 <= i < rows.len() && !dead.contains((#[trigger] rows[i]).owner@) implies f.contains(
            rows[i],
        ) by {
            if i < rows.len() - 1 {
                assert(t[i] == rows[i]);
                assert(ft.contains(rows[i]));
                let k = ft.lemma_contains_to_index(rows[i]);
                assert(f[k] == rows[i]);
            } else {
                assert(f[f.len() - 1] == rows[i]);
            }
        }
        if sat_rows_unique(rows) {
            assert forall|a: int, b: int| 0 <= a < b < t.len() implies !(t[a].owner@ == t[b].owner@
                && t[a].value@ == t[b].value@) by {
                assert(t[a] == rows[a] && t[b] == rows[b]);
            }
            assert forall|a: int, b: int| 0 <= a < b < f.len() implies !(f[a].owner@ == f[b].owner@
                && f[a].value@ == f[b].value@) by {
                if b < ft.len() {
                    assert(f[a] == ft[a] && f[b] == ft[b]);
                } else {
                    assert(f[a] == ft[a] && f[b] == rows.last());
                    assert(t.contains(ft[a]));
                    let k = t.lemma_contains_to_index(ft[a]);
                    assert(rows[k] == f[a]);
                    assert(!(rows[k].owner@ == rows[rows.len() - 1].owner@ && rows[k].value@
                        == rows[rows.len() - 1].value@));
                }
            }
        }
    }
}

/// What the surviving rows are after removing one owner.
pub proof fn lemma_sat_without_owner_props(rows: Seq<SatRow>, owner: Seq<char>)
    ensures
        forall|i: int|
            0 <= i < sat_without_owner(rows, owner).len() ==> (#[trigger] sat_without_owner(
                rows,
                owner,
            )[i]).owner@ != owner && rows.contains(sat_without_owner(rows, owner)[i]),
        forall|i: int|
            0 <= i < rows.len() && (#[trigger] rows[i]).owner@ != owner ==> sat_without_owner(
                rows,
                owner,
            ).contains(rows[i]),
        sat_rows_unique(rows) ==> sat_rows_unique(sat_without_owner(rows, owner)),
    decreases rows.len(),
{
    if rows.len() > 0 {
        let t = rows.drop_last();
        lemma_sat_without_owner_props(t, owner);
        let f = sat_without_owner(rows, owner);
        let ft = sat_without_owner(t, owner);
        assert forall|i: int| 0 <= i < f.len() implies (#[trigger] f[i]).owner@ != owner
            && rows.contains(f[i]) by {
            if i < ft.len() {
                assert(f[i] == ft[i]);
                assert(t.contains(ft[i]));
                let k = t.lemma_contains_to_index(ft[i]);
                assert(rows[k] == f[i]);
            } else {
                assert(f[i] == rows.last());
                assert(rows[rows.len() - 1] == f[i]);
            }
        }
        assert forall|i: int|
            0 <= i < rows.len() && (#[trigger] rows[i]).owner@ != owner implies f.contains(
            rows[i],
        ) by {
            if i < rows.len() - 1 {
                assert(t[i] == rows[i]);
                assert(ft.contains(rows[i]));
                let k = ft.lemma_contains_to_index(rows[i]);
                assert(f[k] == rows[i]);
            } else {
                assert(f[f.len() - 1] == rows[i]);
            }
        }
        if sat_rows_unique(rows) {
            assert forall|a: int, b: int| 0 <= a < b < t.len() implies !(t[a].owner@ == t[b].owner@
                && t[a].value@ == t[b].value@) by {
                assert(t[a] == rows[a] && t[b] == rows[b]);
            }
            assert forall|a: int, b: int| 0 <= a < b < f.len() implies !(f[a].owner@ == f[b].owner@
                && f[a].value@ == f[b].value@) by {
                if b < ft.len() {
                    assert(f[a] == ft[a] && f[b] == ft[b]);
                } else {
                    assert(f[a] == ft[a] && f[b] == rows.last());
                    assert(t.contains(ft[a]));
                    let k = t.lemma_contains_to_index(ft[a]);
                    assert(rows[k] == f[a]);
                    assert(!(rows[k].owner@ == rows[rows.len() - 1].owner@ && rows[k].value@
                        == rows[rows.len() - 1].value@));
                }
            }
        }
    }
}

/// What a whole-set replacement leaves in the table: every other owner's rows
/// in order, then the new set in the given order.
pub open spec fn spec_replace(rows: Seq<SatRow>, owner: String, values: Seq<String>) -> Seq<
    SatRow,
> {
    rows.filter(|r: SatRow| r.owner@ != owner@) + values.map_values(
        |v: String| SatRow { owner: owner, value: v },
    )
}

/// Whether a value list is free of duplicates, as the uniqueness constraint
/// demands before a whole set is written.
pub fn values_unique(values: &Vec<String>) -> (r: bool)
    ensures
        r == strs_sv(values@).no_duplicates(),
{
    !SatTable::has_duplicate(values)
}

/// What a whole-set replacement does to the value sets: the new set stands
/// under its owner, every other owner's set is untouched, and uniqueness of
/// the pairs is preserved.
pub proof fn lemma_spec_replace_values(rows: Seq<SatRow>, owner: String, values: Seq<String>)
    ensures
        values_of(spec_replace(rows, owner, values), owner@) == values,
        forall|other: Seq<char>|
            other != owner@ ==> #[trigger] values_of(spec_replace(rows, owner, values), other)
                == values_of(rows, other),
        sat_rows_unique(rows) && strs_sv(values).no_duplicates() ==> sat_rows_unique(
            spec_replace(rows, owner, values),
        ),
        forall|i: int|
            0 <= i < spec_replace(rows, owner, values).len() ==> ((#[trigger] spec_replace(
                rows,
                owner,
                values,
            )[i]).owner@ == owner@ || rows.contains(spec_replace(rows, owner, values)[i])),
        spec_replace(rows, owner, values).len() == rows.filter(
            |r: SatRow| r.owner@ != owner@,
        ).len() + values.len(),
{
    broadcast use vstd::seq_lib::group_filter_ensures;
    broadcast use Seq::lemma_filter_contains_rev;
    broadcast use Seq::filter_distributes_over_add;
    broadcast use crate::seqs::lemma_filter_elem_source;
    broadcast use crate::seqs::lemma_filter_all;
    broadcast use crate::seqs::lemma_filter_absorb;

    let a = rows.filter(|r: SatRow| r.owner@ != owner@);
    let b = values.map_values(|v: String| SatRow { owner: owner, value: v });
    let rp = spec_replace(rows, owner, values);
    assert(rp == a + b);
    assert(b.len() == values.len());
    assert forall|i: int| 0 <= i < b.len() implies (#[trigger] b[i]).owner@ == owner@ && b[i].value
        == values[i] by {}

    // The new set under its owner.
    assert(rows_of(a + b, owner@) == rows_of(a, owner@) + rows_of(b, owner@));
    assert(rows_of(a, owner@).len() == 0) by {
        if rows_of(a, owner@).len() > 0 {
            let x = rows_of(a, owner@)[0];
            assert(a.contains(x));
            let k = a.lemma_contains_to_index(x);
            assert(x.owner@ != owner@);
            assert(x.owner@ == owner@);
        }
    }
    assert(rows_of(a, owner@) =~= Seq::<SatRow>::empty());
    assert(rows_of(b, owner@) == b);
    assert(rows_of(rp, owner@) =~= b);
    assert(values_of(rp, owner@) =~= values);

    // Every other owner's set is untouched.
    assert forall|other: Seq<char>| other != owner@ implies #[trigger] values_of(rp, other)
        == values_of(rows, other) by {
        assert(rows_of(a + b, other) == rows_of(a, other) + rows_of(b, other));
        assert(rows_of(b, other).len() == 0) by {
            if rows_of(b, other).len() > 0 {
                let x = rows_of(b, other)[0];
                assert(b.contains(x));
                let k = b.lemma_contains_to_index(x);
                assert(x.owner@ == owner@);
                assert(x.owner@ == other);
            }
        }
        assert(rows_of(b, other) =~= Seq::<SatRow>::empty());
        assert(rows_of(a, other) == rows_of(rows, other));
        assert(rows_of(rp, other) =~= rows_of(rows, other));
        assert(values_of(rp, other) == values_of(rows, other));
    }

    // Uniqueness of the pairs is preserved.
    if sat_rows_unique(rows) && strs_sv(values).no_duplicates() {
        assert forall|i: int, j: int| 0 <= i < j < rp.len() implies !(rp[i].owner@ == rp[j].owner@
            && rp[i].value@ == rp[j].value@) by {
            if j < a.len() {
                assert(rp[i] == a[i] && rp[j] == a[j]);
                crate::seqs::lemma_filter_pair_source(rows, |r: SatRow| r.owner@ != owner@);
                let (k, l) = choose|k: int, l: int|
                    0 <= k < l < rows.len() && rows[k] == a[i] && rows[l] == a[j];
                assert(!(rows[k].owner@ == rows[l].owner@ && rows[k].value@ == rows[l].value@));
            } else if i < a.len() {
                assert(rp[i] == a[i] && rp[j] == b[j - a.len()]);
                assert(rp[i].owner@ != owner@ && rp[j].owner@ == owner@);
            } else {
                assert(rp[i] == b[i - a.len()] && rp[j] == b[j - a.len()]);
                assert(strs_sv(values)[i - a.len()] != strs_sv(values)[j - a.len()]);
            }
        }
    }

    // Each surviving row is the new set's or was already there.
    assert forall|i: int| 0 <= i < rp.len() implies ((#[trigger] rp[i]).owner@ == owner@
        || rows.contains(rp[i])) by {
        if i < a.len() {
            assert(rp[i] == a[i]);
            assert(a.contains(a[i]));
        } else {
            assert(rp[i] == b[i - a.len()]);
        }
    }
}

/// A stored value set has no duplicates: the pairs are unique, so two rows
/// of one owner differ in their values.
pub proof fn lemma_values_of_unique(rows: Seq<SatRow>, owner: Seq<char>)
    requires
        sat_rows_unique(rows),
    ensures
        strs_sv(values_of(rows, owner)).no_duplicates(),
{
    broadcast use vstd::seq_lib::group_filter_ensures;
    broadcast use crate::seqs::lemma_filter_pair_source;

    let ro = rows_of(rows, owner);
    let vs = strs_sv(values_of(rows, owner));
    assert forall|a: int, b: int| 0 <= a < b < vs.len() implies vs[a] != vs[b] by {
        assert(vs[a] == ro[a].value@ && vs[b] == ro[b].value@);
        assert(ro[a].owner@ == owner && ro[b].owner@ == owner);
        let (k, l) = choose|k: int, l: int|
            0 <= k < l < rows.len() && rows[k] == ro[a] && rows[l] == ro[b];
        assert(!(rows[k].owner@ == rows[l].owner@ && rows[k].value@ == rows[l].value@));
    }
}


/// An owner with no rows has the empty value set.
pub proof fn lemma_values_of_absent(rows: Seq<SatRow>, owner: Seq<char>)
    requires
        forall|i: int| 0 <= i < rows.len() ==> (#[trigger] rows[i]).owner@ != owner,
    ensures
        values_of(rows, owner) == Seq::<String>::empty(),
{
    broadcast use vstd::seq_lib::group_filter_ensures;
    broadcast use crate::seqs::lemma_filter_elem_source;

    if rows_of(rows, owner).len() > 0 {
        let x = rows_of(rows, owner)[0];
        assert(rows_of(rows, owner).contains(x));
        let k = rows.lemma_contains_to_index(x);
        assert(x.owner@ == owner);
        assert(rows[k].owner@ != owner);
    }
    assert(values_of(rows, owner) =~= Seq::<String>::empty());
}

/// One satellite table.
#[derive(Debug, PartialEq, Eq)]
#[verifier::ext_equal]
pub struct SatTable {
    rows: Vec<SatRow>,
}

impl View for SatTable {
    type V = Seq<SatRow>;

    closed spec fn view(&self) -> Seq<SatRow> {
        self.rows@
    }
}

impl SatTable {
    /// An empty table.
    pub fn new() -> (r: SatTable)
        ensures
            r@ == Seq::<SatRow>::empty(),
    {
        SatTable { rows: Vec::new() }
    }

    /// Reads the value set attached to `owner`, in storage order.
    pub fn read(&self, owner: &String) -> (r: Vec<String>)
        ensures
            r@ == values_of(self@, owner@),
    {
        let rows = &self.rows;
        let mut out: Vec<String> = Vec::new();
        let mut i: usize = 0;
        while i < rows.len()
            invariant
                i <= rows.len(),
                out@ == values_of(rows@.take(i as int), owner@),
            decreases rows.len() - i,
        {
            proof {
                lemma_take_succ(rows@, i as int);
                lemma_filter_push(
                    rows@.take(i as int),
                    rows@[i as int],
                    |r: SatRow| r.owner@ == owner@,
                );
            }
            if str_eq(&rows[i].owner, owner) {
                out.push(rows[i].value.clone());
                proof {
                    assert(out@ =~= values_of(rows@.take(i + 1), owner@));
                }
            } else {
                proof {
                    assert(out@ =~= values_of(rows@.take(i + 1), owner@));
                }
            }
            i = i + 1;
        }
        proof {
            assert(rows@.take(rows@.len() as int) =~= rows@);
        }
        out
    }

    /// Replaces the whole value set attached to `owner`. The set is written
    /// as one unit: a duplicate value in the input violates the uniqueness
    /// constraint, nothing is changed, and the fault is surfaced.
    pub fn replace_all(&mut self, owner: &String, values: &Vec<String>) -> (r: Result<(), Error>)
        ensures
            r is Ok <==> strs_sv(values@).no_duplicates(),
            r matches Ok(()) ==> final(self)@ == spec_replace(old(self)@, *owner, values@),
            r matches Err(e) ==> final(self)@ == old(self)@ && e == Error::StorageFault,
    {
        if Self::has_duplicate(values) {
            return Err(Error::StorageFault);
        }
        let mut out: Vec<SatRow> = Vec::new();
        let mut i: usize = 0;
        while i < self.rows.len()
            invariant
                i <= self.rows.len(),
                out@ == self.rows@.take(i as int).filter(|r: SatRow| r.owner@ != owner@),
            decreases self.rows.len() - i,
        {
            proof {
                lemma_take_succ(self.rows@, i as int);
                lemma_filter_push(
                    self.rows@.take(i as int),
                    self.rows@[i as int],
                    |r: SatRow| r.owner@ != owner@,
                );
            }
            if !str_eq(&self.rows[i].owner, owner) {
                out.push(self.rows[i].clone());
            }
            i = i + 1;
        }
        proof {
            assert(self.rows@.take(self.rows@.len() as int) =~= self.rows@);
        }
        let mut j: usize = 0;
        while j < values.len()
            invariant
                j <= values.len(),
                out@ == self.rows@.filter(|r: SatRow| r.owner@ != owner@) + values@.take(
                    j as int,
                ).map_values(|v: String| SatRow { owner: *owner, value: v }),
            decreases values.len() - j,
        {
            out.push(SatRow { owner: owner.clone(), value: values[j].clone() });
            proof {
                lemma_take_succ(values@, j as int);
                assert(values@.take(j + 1).map_values(
                    |v: String| SatRow { owner: *owner, value: v },
                ) =~= values@.take(j as int).map_values(
                    |v: String| SatRow { owner: *owner, value: v },
                ).push(SatRow { owner: *owner, value: values@[j as int] }));
            }
            j = j + 1;
        }
        proof {
            assert(values@.take(values@.len() as int) =~= values@);
        }
        self.rows = out;
        Ok(())
    }

    /// Whether the value list holds two equal strings.
    pub(crate) fn has_duplicate(values: &Vec<String>) -> (r: bool)
        ensures
            r == !strs_sv(values@).no_duplicates(),
    {
        let mut i: usize = 0;
        while i < values.len()
            invariant
                i <= values.len(),
                forall|a: int, b: int|
                    0 <= a < b < values@.len() && a < i ==> strs_sv(values@)[a] != strs_sv(
                        values@,
                    )[b],
            decreases values.len() - i,
        {
            let mut j: usize = i + 1;
            while j < values.len()
                invariant
                    i < j <= values.len() || (i + 1 == j && j > values.len()),
                    i < values.len(),
                    forall|b: int| i < b < j ==> strs_sv(values@)[i as int] != strs_sv(values@)[b],
                decreases values.len() - j,
            {
                if str_eq(&values[i], &values[j]) {
                    assert(strs_sv(values@)[i as int] == strs_sv(values@)[j as int]);
                    return true;
                }
                j = j + 1;
            }
            i = i + 1;
        }
        false
    }

    /// Removes every row attached to `owner`.
    pub fn remove_owner(&mut self, owner: &String)
        ensures
            final(self)@ == sat_without_owner(old(self)@, owner@),
    {
        let mut out: Vec<SatRow> = Vec::new();
        let mut i: usize = 0;
        while i < self.rows.len()
            invariant
                i <= self.rows.len(),
                out@ == sat_without_owner(self.rows@.take(i as int), owner@),
            decreases self.rows.len() - i,
        {
            proof {
                lemma_take_succ(self.rows@, i as int);
                lemma_sat_without_owner_push(
                    self.rows@.take(i as int),
                    owner@,
                    self.rows@[i as int],
                );
            }
            if !str_eq(&self.rows[i].owner, owner) {
                out.push(self.rows[i].clone());
            }
            i = i + 1;
        }
        proof {
            assert(self.rows@.take(self.rows@.len() as int) =~= self.rows@);
        }
        self.rows = out;
    }

    /// Removes every row whose owner stands in `owners`.
    pub fn retain_not_in(&mut self, owners: &Vec<String>)
        ensures
            final(self)@ == sat_keep_alive(old(self)@, strs_sv(owners@)),
    {
        let mut out: Vec<SatRow> = Vec::new();
        let mut i: usize = 0;
        while i < self.rows.len()
            invariant
                i <= self.rows.len(),
                out@ == sat_keep_alive(self.rows@.take(i as int), strs_sv(owners@)),
            decreases self.rows.len() - i,
        {
            proof {
                lemma_take_succ(self.rows@, i as int);
                lemma_sat_keep_alive_push(
                    self.rows@.take(i as int),
                    strs_sv(owners@),
                    self.rows@[i as int],
                );
            }
            if !Self::contains_str(owners, &self.rows[i].owner) {
                out.push(self.rows[i].clone());
            }
            i = i + 1;
        }
        proof {
            assert(self.rows@.take(self.rows@.len() as int) =~= self.rows@);
        }
        self.rows = out;
    }

    /// Whether `needle`'s content stands in `hay`.
    fn contains_str(hay: &Vec<String>, needle: &String) -> (r: bool)
        ensures
            r == strs_sv(hay@).contains(needle@),
    {
        let mut i: usize = 0;
        while i < hay.len()
            invariant
                i <= hay.len(),
                forall|k: int| 0 <= k < i ==> strs_sv(hay@)[k] != needle@,
            decreases hay.len() - i,
        {
            if str_eq(&hay[i], needle) {
                assert(strs_sv(hay@)[i as int] == needle@);
                return true;
            }
            i = i + 1;
        }
        false
    }
}

} // verus!
