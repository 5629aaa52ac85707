//! Time accumulated per language: a table from language name to milliseconds.
//!
//! The table is a vector of entries whose names are pairwise distinct. What it
//! means is its view, a map from name to time; the order of the entries means
//! nothing.

use vstd::prelude::*;
use crate::text::opt_chars;

verus! {

/// One row of the table.
pub struct LanguageTime {
    pub language: String,
    pub time_ms: u64,
}

/// Language name to accumulated milliseconds.
pub struct LanguageTimes {
    pub entries: Vec<LanguageTime>,
}

/// No two entries carry the same name.
pub open spec fn names_distinct(entries: Seq<LanguageTime>) -> bool {
    forall|i: int, j: int|
        0 <= i < j < entries.len() ==> (#[trigger] entries[i]).language@ != (
        #[trigger] entries[j]).language@
}

/// Some entry carries `name`.
pub open spec fn holds_name(entries: Seq<LanguageTime>, name: Seq<char>) -> bool {
    exists|i: int| 0 <= i < entries.len() && (#[trigger] entries[i]).language@ == name
}

/// The place of an entry that carries `name`, where there is one.
pub open spec fn place_of(entries: Seq<LanguageTime>, name: Seq<char>) -> int {
    choose|i: int| 0 <= i < entries.len() && (#[trigger] entries[i]).language@ == name
}

/// The map that a sequence of entries stands for.
pub open spec fn times_of(entries: Seq<LanguageTime>) -> Map<Seq<char>, u64> {
    Map::new(
        |name: Seq<char>| holds_name(entries, name),
        |name: Seq<char>| entries[place_of(entries, name)].time_ms,
    )
}

/// The time a map holds for `name`: zero where it has no such key.
pub open spec fn time_in(times: Map<Seq<char>, u64>, name: Seq<char>) -> nat {
    if times.contains_key(name) {
        times[name] as nat
    } else {
        0
    }
}

/// `times` with `ms` more credited to `name`.
pub open spec fn credited(times: Map<Seq<char>, u64>, name: Seq<char>, ms: nat) -> Map<
    Seq<char>,
    u64,
> {
    times.insert(name, (time_in(times, name) + ms) as u64)
}

/// `merged` is the sum of `left` and `right`: it has the keys of both, and
/// under each key the two times added.
pub open spec fn is_sum_of(
    merged: Map<Seq<char>, u64>,
    left: Map<Seq<char>, u64>,
    right: Map<Seq<char>, u64>,
) -> bool {
    &&& merged.dom() == left.dom().union(right.dom())
    &&& forall|name: Seq<char>| #[trigger]
        time_in(merged, name) == time_in(left, name) + time_in(right, name)
}

/// The sum of two tables: the keys of both, and under each key the two times
/// added.
pub open spec fn summed(left: Map<Seq<char>, u64>, right: Map<Seq<char>, u64>) -> Map<
    Seq<char>,
    u64,
> {
    Map::new(
        |name: Seq<char>| left.contains_key(name) || right.contains_key(name),
        |name: Seq<char>| (time_in(left, name) + time_in(right, name)) as u64,
    )
}

/// Adding `right` onto `left` stays within `u64` under every name.
pub open spec fn sum_fits(left: Map<Seq<char>, u64>, right: Map<Seq<char>, u64>) -> bool {
    forall|name: Seq<char>| #[trigger]
        time_in(left, name) + time_in(right, name) <= u64::MAX
}

/// Name order: `a` comes before `b`, or equals it, when the two are compared
/// character by character, by code point, a proper prefix coming first.
pub open spec fn name_le(a: Seq<char>, b: Seq<char>) -> bool
    decreases a.len(),
{
    if a.len() == 0 {
        true
    } else if b.len() == 0 {
        false
    } else if a[0] != b[0] {
        (a[0] as u32) < (b[0] as u32)
    } else {
        name_le(a.drop_first(), b.drop_first())
    }
}

/// `name` with time `time` is at least as good a choice of primary language
/// as `other` with `other_time`: it has more time, or the same time and a name
/// that does not come later.
pub open spec fn outranks(name: Seq<char>, time: u64, other: Seq<char>, other_time: u64) -> bool {
    other_time < time || (other_time == time && name_le(name, other))
}

/// `name` is the primary language of `times`: a key that outranks every key.
pub open spec fn is_primary(times: Map<Seq<char>, u64>, name: Seq<char>) -> bool {
    &&& times.contains_key(name)
    &&& forall|other: Seq<char>| #[trigger]
        times.contains_key(other) ==> outranks(name, times[name], other, times[other])
}

/// The primary language of `times`: the one key that outranks every key, and
/// none for an empty table.
pub open spec fn primary_of(times: Map<Seq<char>, u64>) -> Option<Seq<char>> {
    if times == Map::<Seq<char>, u64>::empty() {
        None
    } else {
        Some(choose|name: Seq<char>| is_primary(times, name))
    }
}

/// An entry's time is what the map holds under the entry's name.
pub proof fn lemma_entry_in_map(entries: Seq<LanguageTime>, i: int)
    requires
        names_distinct(entries),
        0 <= i < entries.len(),
    ensures
        times_of(entries).contains_key(entries[i].language@),
        times_of(entries)[entries[i].language@] == entries[i].time_ms,
{
    let name = entries[i].language@;
    assert(holds_name(entries, name));
    let p = place_of(entries, name);
    assert(0 <= p < entries.len() && entries[p].language@ == name);
    if p < i {
        assert(entries[p].language@ != entries[i].language@);
    } else if i < p {
        assert(entries[i].language@ != entries[p].language@);
    }
}

/// Appending an entry under a new name inserts it into the map.
pub proof fn lemma_push_entry(entries: Seq<LanguageTime>, entry: LanguageTime)
    requires
        names_distinct(entries),
        !holds_name(entries, entry.language@),
    ensures
        names_distinct(entries.push(entry)),
        times_of(entries.push(entry)) == times_of(entries).insert(
            entry.language@,
            entry.time_ms,
        ),
{
    let longer = entries.push(entry);
    let last = entries.len() as int;
    assert forall|i: int, j: int| 0 <= i < j < longer.len() implies (#[trigger] longer[i]).language@
        != (#[trigger] longer[j]).language@ by {
        if j < last {
            assert(entries[i].language@ != entries[j].language@);
        } else {
            assert(longer[i] == entries[i]);
            if entries[i].language@ == entry.language@ {
                assert(holds_name(entries, entry.language@));
            }
        }
    }
    let target = times_of(entries).insert(entry.language@, entry.time_ms);
    assert forall|name: Seq<char>| times_of(longer).contains_key(name) <==> target.contains_key(
        name,
    ) by {
        if holds_name(longer, name) {
            let p = place_of(longer, name);
            if p < last {
                assert(entries[p] == longer[p]);
                assert(holds_name(entries, name));
            }
        }
        if holds_name(entries, name) {
            let p = place_of(entries, name);
            assert(longer[p] == entries[p]);
            assert(holds_name(longer, name));
        }
        if name == entry.language@ {
            assert(longer[last] == entry);
            assert(holds_name(longer, name));
        }
    }
    assert forall|name: Seq<char>| times_of(longer).contains_key(name) implies times_of(
        longer,
    )[name] == target[name] by {
        let p = place_of(longer, name);
        lemma_entry_in_map(longer, p);
        if p < last {
            assert(longer[p] == entries[p]);
            lemma_entry_in_map(entries, p);
            if entries[p].language@ == entry.language@ {
                assert(holds_name(entries, entry.language@));
            }
        }
    }
    assert(times_of(longer) =~= target);
}

/// Replacing an entry by one of the same name overwrites its key in the map.
pub proof fn lemma_update_entry(entries: Seq<LanguageTime>, i: int, entry: LanguageTime)
    requires
        names_distinct(entries),
        0 <= i < entries.len(),
        entry.language@ == entries[i].language@,
    ensures
        names_distinct(entries.update(i, entry)),
        times_of(entries.update(i, entry)) == times_of(entries).insert(
            entry.language@,
            entry.time_ms,
        ),
{
    let changed = entries.update(i, entry);
    assert forall|a: int, b: int| 0 <= a < b < changed.len() implies (#[trigger] changed[a]).language@
        != (#[trigger] changed[b]).language@ by {
        assert(changed[a].language@ == entries[a].language@);
        assert(changed[b].language@ == entries[b].language@);
        assert(entries[a].language@ != entries[b].language@);
    }
    let target = times_of(entries).insert(entry.language@, entry.time_ms);
    assert forall|name: Seq<char>| times_of(changed).contains_key(name) <==> target.contains_key(
        name,
    ) by {
        if holds_name(changed, name) {
            let p = place_of(changed, name);
            assert(changed[p].language@ == entries[p].language@);
            assert(holds_name(entries, name));
        }
        if holds_name(entries, name) {
            let p = place_of(entries, name);
            assert(changed[p].language@ == entries[p].language@);
            assert(holds_name(changed, name));
        }
        if name == entry.language@ {
            assert(entries[i].language@ == name);
            assert(holds_name(entries, name));
        }
    }
    assert forall|name: Seq<char>| times_of(changed).contains_key(name) implies times_of(
        changed,
    )[name] == target[name] by {
        let p = place_of(changed, name);
        lemma_entry_in_map(changed, p);
        if p != i {
            assert(changed[p] == entries[p]);
            lemma_entry_in_map(entries, p);
            if p < i {
                assert(entries[p].language@ != entries[i].language@);
            } else {
                assert(entries[i].language@ != entries[p].language@);
            }
        }
    }
    assert(times_of(changed) =~= target);
}

/// The name order is total.
pub proof fn lemma_name_le_total(a: Seq<char>, b: Seq<char>)
    ensures
        name_le(a, b) || name_le(b, a),
    decreases a.len(),
{
    if a.len() > 0 && b.len() > 0 {
        if a[0] == b[0] {
            lemma_name_le_total(a.drop_first(), b.drop_first());
        } else {
            vstd::utf8::char_u32_cast(a[0], a[0] as u32);
            vstd::utf8::char_u32_cast(b[0], b[0] as u32);
        }
    }
}

/// Two names that precede each other are one name.
pub proof fn lemma_name_le_antisymmetric(a: Seq<char>, b: Seq<char>)
    requires
        name_le(a, b),
        name_le(b, a),
    ensures
        a == b,
    decreases a.len(),
{
    if a.len() == 0 || b.len() == 0 {
        assert(a =~= b);
    } else {
        assert(a[0] == b[0]);
        lemma_name_le_antisymmetric(a.drop_first(), b.drop_first());
        assert(a =~= seq![a[0]] + a.drop_first());
        assert(b =~= seq![b[0]] + b.drop_first());
    }
}

/// The name order is transitive.
pub proof fn lemma_name_le_transitive(a: Seq<char>, b: Seq<char>, c: Seq<char>)
    requires
        name_le(a, b),
        name_le(b, c),
    ensures
        name_le(a, c),
    decreases a.len(),
{
    if a.len() > 0 && b.len() > 0 && c.len() > 0 && a[0] == b[0] && b[0] == c[0] {
        lemma_name_le_transitive(a.drop_first(), b.drop_first(), c.drop_first());
    }
}

/// A table has at most one primary language: the choice does not depend on
/// the order in which the languages were recorded.
pub proof fn lemma_primary_unique(times: Map<Seq<char>, u64>, a: Seq<char>, b: Seq<char>)
    requires
        is_primary(times, a),
        is_primary(times, b),
    ensures
        a == b,
{
    assert(outranks(a, times[a], b, times[b]));
    assert(outranks(b, times[b], a, times[a]));
    lemma_name_le_antisymmetric(a, b);
}

/// A primary language that is known is the one that [`primary_of`] names.
pub proof fn lemma_primary_is(times: Map<Seq<char>, u64>, name: Seq<char>)
    requires
        is_primary(times, name),
    ensures
        primary_of(times) == Some(name),
{
    assert(times.contains_key(name));
    assert(times != Map::<Seq<char>, u64>::empty());
    let chosen = choose|other: Seq<char>| is_primary(times, other);
    lemma_primary_unique(times, chosen, name);
}

/// The entry at `lead` outranks each of the first `n` entries.
pub open spec fn leads(entries: Seq<LanguageTime>, lead: int, n: int) -> bool {
    &&& 0 <= lead < n
    &&& forall|k: int|
        0 <= k < n ==> outranks(
            entries[lead].language@,
            entries[lead].time_ms,
            (#[trigger] entries[k]).language@,
            entries[k].time_ms,
        )
}

/// Among the first `n` entries of a table, one outranks all.
pub proof fn lemma_leader_exists(entries: Seq<LanguageTime>, n: int)
    requires
        0 < n <= entries.len(),
    ensures
        exists|lead: int| leads(entries, lead, n),
    decreases n,
{
    if n == 1 {
        lemma_name_le_total(entries[0].language@, entries[0].language@);
        assert(leads(entries, 0, n));
    } else {
        let rival = n - 1;
        lemma_leader_exists(entries, rival);
        let held = choose|lead: int| leads(entries, lead, rival);
        lemma_name_le_total(entries[held].language@, entries[rival].language@);
        lemma_name_le_total(entries[rival].language@, entries[rival].language@);
        if outranks(
            entries[held].language@,
            entries[held].time_ms,
            entries[rival].language@,
            entries[rival].time_ms,
        ) {
            assert(leads(entries, held, n));
        } else {
            assert forall|k: int| 0 <= k < n implies outranks(
                entries[rival].language@,
                entries[rival].time_ms,
                (#[trigger] entries[k]).language@,
                entries[k].time_ms,
            ) by {
                if k < n - 1 {
                    assert(outranks(
                        entries[held].language@,
                        entries[held].time_ms,
                        entries[k].language@,
                        entries[k].time_ms,
                    ));
                    if entries[rival].time_ms == entries[held].time_ms && entries[held].time_ms
                        == entries[k].time_ms {
                        lemma_name_le_transitive(
                            entries[rival].language@,
                            entries[held].language@,
                            entries[k].language@,
                        );
                    }
                }
            }
            assert(leads(entries, rival, n));
        }
    }
}

/// Every table that is not empty has a primary language, and
/// [`primary_of`] names it.
pub proof fn lemma_primary_exists(entries: Seq<LanguageTime>)
    requires
        names_distinct(entries),
        entries.len() > 0,
    ensures
        primary_of(times_of(entries)) is Some,
        is_primary(times_of(entries), primary_of(times_of(entries))->0),
{
    let times = times_of(entries);
    let n = entries.len() as int;
    lemma_leader_exists(entries, n);
    let lead = choose|lead: int| leads(entries, lead, n);
    let name = entries[lead].language@;
    lemma_entry_in_map(entries, lead);
    assert forall|other: Seq<char>| #[trigger] times.contains_key(other) implies outranks(
        name,
        times[name],
        other,
        times[other],
    ) by {
        let p = place_of(entries, other);
        lemma_entry_in_map(entries, p);
        assert(outranks(name, entries[lead].time_ms, entries[p].language@, entries[p].time_ms));
    }
    lemma_primary_is(times, name);
}

/// A table that is the sum of two, name by name, is their [`summed`] table.
pub proof fn lemma_sum_is(
    merged: Map<Seq<char>, u64>,
    left: Map<Seq<char>, u64>,
    right: Map<Seq<char>, u64>,
)
    requires
        is_sum_of(merged, left, right),
    ensures
        merged == summed(left, right),
{
    let target = summed(left, right);
    assert forall|name: Seq<char>| merged.contains_key(name) <==> target.contains_key(name) by {
        assert(merged.dom().contains(name) <==> left.dom().union(right.dom()).contains(name));
    }
    assert forall|name: Seq<char>| merged.contains_key(name) implies merged[name]
        == target[name] by {
        assert(time_in(merged, name) == time_in(left, name) + time_in(right, name));
    }
    assert(merged =~= target);
}

impl View for LanguageTimes {
    type V = Map<Seq<char>, u64>;

    open spec fn view(&self) -> Map<Seq<char>, u64> {
        times_of(self.entries@)
    }
}

/// Decides [`name_le`].
pub fn name_precedes(a: &str, b: &str) -> (le: bool)
    ensures
        le == name_le(a@, b@),
{
    let a_len: usize = a.unicode_len();
    let b_len: usize = b.unicode_len();
    let mut i: usize = 0;
    proof {
        assert(a@.skip(0) =~= a@);
        assert(b@.skip(0) =~= b@);
    }
    while i < a_len && i < b_len
        invariant
            a_len == a@.len(),
            b_len == b@.len(),
            i <= a_len,
            i <= b_len,
            name_le(a@, b@) == name_le(a@.skip(i as int), b@.skip(i as int)),
        decreases a_len - i,
    {
        let a_char = a.get_char(i);
        let b_char = b.get_char(i);
        proof {
            assert(a@.skip(i as int)[0] == a@[i as int]);
            assert(b@.skip(i as int)[0] == b@[i as int]);
            assert(a@.skip(i as int).drop_first() =~= a@.skip(i + 1));
            assert(b@.skip(i as int).drop_first() =~= b@.skip(i + 1));
        }
        if a_char != b_char {
            return (a_char as u32) < (b_char as u32);
        }
        i += 1;
    }
    i == a_len
}

impl Clone for LanguageTime {
    fn clone(&self) -> (copy: Self)
        ensures
            copy == *self,
    {
        LanguageTime { language: self.language.clone(), time_ms: self.time_ms }
    }
}

impl Clone for LanguageTimes {
    fn clone(&self) -> (copy: Self)
        ensures
            copy.entries@ == self.entries@,
    {
        let mut entries: Vec<LanguageTime> = Vec::new();
        let mut i: usize = 0;
        while i < self.entries.len()
            invariant
                i <= self.entries@.len(),
                entries@ == self.entries@.take(i as int),
            decreases self.entries@.len() - i,
        {
            entries.push(self.entries[i].clone());
            proof {
                assert(self.entries@.take(i + 1) =~= self.entries@.take(i as int).push(
                    self.entries@[i as int],
                ));
            }
            i += 1;
        }
        proof {
            assert(self.entries@.take(i as int) =~= self.entries@);
        }
        LanguageTimes { entries }
    }
}

impl LanguageTimes {
    /// The names are pairwise distinct, so the view has one key per entry.
    pub open spec fn wf(&self) -> bool {
        names_distinct(self.entries@)
    }

    /// The time recorded for `name`: zero for a language never seen.
    pub open spec fn time_of(&self, name: Seq<char>) -> nat {
        time_in(self@, name)
    }

    /// The empty table.
    pub fn new() -> (table: Self)
        ensures
            table.wf(),
            table@ == Map::<Seq<char>, u64>::empty(),
            table.entries@.len() == 0,
    {
        let table = LanguageTimes { entries: Vec::new() };
        proof {
            assert(table@ =~= Map::<Seq<char>, u64>::empty());
        }
        table
    }

    /// Decides [`LanguageTimes::wf`].
    pub fn is_wf(&self) -> (ok: bool)
        ensures
            ok == self.wf(),
    {
        let mut j: usize = 0;
        while j < self.entries.len()
            invariant
                j <= self.entries@.len(),
                names_distinct(self.entries@.take(j as int)),
            decreases self.entries@.len() - j,
        {
            let mut i: usize = 0;
            while i < j
                invariant
                    i <= j < self.entries@.len(),
                    forall|k: int|
                        0 <= k < i ==> (#[trigger] self.entries@[k]).language@
                            != self.entries@[j as int].language@,
                decreases j - i,
            {
                if self.entries[i].language == self.entries[j].language {
                    proof {
                        assert(self.entries@[i as int].language@ == self.entries@[j as int].language@);
                    }
                    return false;
                }
                i += 1;
            }
            proof {
                let shorter = self.entries@.take(j as int);
                let longer = self.entries@.take(j + 1);
                assert forall|a: int, b: int| 0 <= a < b < longer.len() implies (
                #[trigger] longer[a]).language@ != (#[trigger] longer[b]).language@ by {
                    if b < j {
                        assert(shorter[a].language@ != shorter[b].language@);
                    } else {
                        assert(self.entries@[a].language@ != self.entries@[j as int].language@);
                    }
                }
            }
            j += 1;
        }
        proof {
            assert(self.entries@.take(j as int) =~= self.entries@);
        }
        true
    }

    /// Where the entry named `name` stands, if there is one.
    pub fn position(&self, name: &String) -> (found: Option<usize>)
        ensures
            match found {
                Some(i) => i < self.entries@.len() && self.entries@[i as int].language@ == name@,
                None => !holds_name(self.entries@, name@),
            },
    {
        let mut i: usize = 0;
        while i < self.entries.len()
            invariant
                i <= self.entries@.len(),
                forall|k: int| 0 <= k < i ==> (#[trigger] self.entries@[k]).language@ != name@,
            decreases self.entries@.len() - i,
        {
            if self.entries[i].language == *name {
                return Some(i);
            }
            i += 1;
        }
        None
    }

    /// The time recorded for `name`, if the language was seen.
    pub fn get(&self, name: &String) -> (time: Option<u64>)
        requires
            self.wf(),
        ensures
            time == (if self@.contains_key(name@) {
                Some(self@[name@])
            } else {
                None
            }),
    {
        match self.position(name) {
            Some(i) => {
                proof {
                    lemma_entry_in_map(self.entries@, i as int);
                }
                Some(self.entries[i].time_ms)
            },
            None => None,
        }
    }

    /// Credits `ms` more to `language`, which enters the table if it is new.
    pub fn credit(&mut self, language: String, ms: u64)
        requires
            old(self).wf(),
            old(self).time_of(language@) + ms <= u64::MAX,
        ensures
            final(self).wf(),
            final(self)@ == credited(old(self)@, language@, ms as nat),
    {
        match self.position(&language) {
            Some(i) => {
                proof {
                    lemma_entry_in_map(self.entries@, i as int);
                }
                let entry = LanguageTime { language, time_ms: self.entries[i].time_ms + ms };
                proof {
                    lemma_update_entry(self.entries@, i as int, entry);
                }
                self.entries.set(i, entry);
            },
            None => {
                let entry = LanguageTime { language, time_ms: ms };
                proof {
                    lemma_push_entry(self.entries@, entry);
                }
                self.entries.push(entry);
            },
        }
    }

    /// Whether the times of `other` can be added onto this table without
    /// leaving `u64` under any name.
    pub fn fits_sum(&self, other: &LanguageTimes) -> (fits: bool)
        requires
            self.wf(),
            other.wf(),
        ensures
            fits == sum_fits(self@, other@),
    {
        let mut i: usize = 0;
        while i < other.entries.len()
            invariant
                i <= other.entries@.len(),
                self.wf(),
                other.wf(),
                forall|k: int|
                    0 <= k < i ==> time_in(self@, (#[trigger] other.entries@[k]).language@)
                        + other.entries@[k].time_ms <= u64::MAX,
            decreases other.entries@.len() - i,
        {
            let held: u64 = match self.get(&other.entries[i].language) {
                Some(time) => time,
                None => 0,
            };
            proof {
                lemma_entry_in_map(other.entries@, i as int);
            }
            if held > u64::MAX - other.entries[i].time_ms {
                proof {
                    let name = other.entries@[i as int].language@;
                    assert(time_in(self@, name) + time_in(other@, name) > u64::MAX);
                }
                return false;
            }
            i += 1;
        }
        proof {
            assert forall|name: Seq<char>| #[trigger]
                time_in(self@, name) + time_in(other@, name) <= u64::MAX by {
                if other@.contains_key(name) {
                    let p = place_of(other.entries@, name);
                    lemma_entry_in_map(other.entries@, p);
                }
            }
        }
        true
    }

    /// Adds every time of `other` onto this table, name by name.
    pub fn merge(&mut self, other: &LanguageTimes)
        requires
            old(self).wf(),
            other.wf(),
            sum_fits(old(self)@, other@),
        ensures
            final(self).wf(),
            final(self)@ == summed(old(self)@, other@),
    {
        let mut i: usize = 0;
        proof {
            assert(times_of(other.entries@.take(0)) =~= Map::<Seq<char>, u64>::empty());
            assert(self@.dom() =~= old(self)@.dom().union(
                times_of(other.entries@.take(0)).dom(),
            ));
        }
        while i < other.entries.len()
            invariant
                i <= other.entries@.len(),
                self.wf(),
                other.wf(),
                sum_fits(old(self)@, other@),
                is_sum_of(self@, old(self)@, times_of(other.entries@.take(i as int))),
            decreases other.entries@.len() - i,
        {
            let ghost before = self@;
            let ghost seen = other.entries@.take(i as int);
            let ghost next = other.entries@.take(i + 1);
            let ghost entry = other.entries@[i as int];
            proof {
                assert(next =~= seen.push(entry));
                assert(names_distinct(seen));
                if holds_name(seen, entry.language@) {
                    let p = place_of(seen, entry.language@);
                    assert(other.entries@[p].language@ != other.entries@[i as int].language@);
                }
                lemma_push_entry(seen, entry);
                lemma_entry_in_map(other.entries@, i as int);
                assert(time_in(before, entry.language@) == time_in(old(self)@, entry.language@)
                    + time_in(times_of(seen), entry.language@));
                assert(time_in(old(self)@, entry.language@) + time_in(other@, entry.language@)
                    <= u64::MAX);
            }
            self.credit(other.entries[i].language.clone(), other.entries[i].time_ms);
            proof {
                assert(self@.dom() =~= old(self)@.dom().union(times_of(next).dom()));
                assert forall|name: Seq<char>| #[trigger]
                    time_in(self@, name) == time_in(old(self)@, name) + time_in(
                        times_of(next),
                        name,
                    ) by {
                    assert(time_in(before, name) == time_in(old(self)@, name) + time_in(
                        times_of(seen),
                        name,
                    ));
                }
            }
            i += 1;
        }
        proof {
            assert(other.entries@.take(i as int) =~= other.entries@);
            lemma_sum_is(self@, old(self)@, other@);
        }
    }

    /// The language with the most time; of several with the most, the one
    /// whose name comes first. `None` for an empty table.
    pub fn primary(&self) -> (best: Option<String>)
        requires
            self.wf(),
        ensures
            opt_chars(best) == primary_of(self@),
            best is Some ==> is_primary(self@, best->0@),
    {
        if self.entries.len() == 0 {
            proof {
                assert(self@ =~= Map::<Seq<char>, u64>::empty());
            }
            return None;
        }
        let mut lead: usize = 0;
        let mut i: usize = 1;
        proof {
            lemma_name_le_total(self.entries@[0].language@, self.entries@[0].language@);
        }
        while i < self.entries.len()
            invariant
                1 <= i <= self.entries@.len(),
                lead < i,
                forall|k: int|
                    0 <= k < i ==> outranks(
                        self.entries@[lead as int].language@,
                        self.entries@[lead as int].time_ms,
                        (#[trigger] self.entries@[k]).language@,
                        self.entries@[k].time_ms,
                    ),
            decreases self.entries@.len() - i,
        {
            let ghost held = self.entries@[lead as int];
            let ghost rival = self.entries@[i as int];
            let takes_over = self.entries[i].time_ms > self.entries[lead].time_ms || (
            self.entries[i].time_ms == self.entries[lead].time_ms && name_precedes(
                self.entries[i].language.as_str(),
                self.entries[lead].language.as_str(),
            ));
            if takes_over {
                proof {
                    assert forall|k: int| 0 <= k < i + 1 implies outranks(
                        rival.language@,
                        rival.time_ms,
                        (#[trigger] self.entries@[k]).language@,
                        self.entries@[k].time_ms,
                    ) by {
                        if k < i {
                            assert(outranks(
                                held.language@,
                                held.time_ms,
                                self.entries@[k].language@,
                                self.entries@[k].time_ms,
                            ));
                            if rival.time_ms == held.time_ms && held.time_ms
                                == self.entries@[k].time_ms {
                                lemma_name_le_transitive(
                                    rival.language@,
                                    held.language@,
                                    self.entries@[k].language@,
                                );
                            }
                        } else {
                            lemma_name_le_total(rival.language@, rival.language@);
                        }
                    }
                }
                lead = i;
            } else {
                proof {
                    lemma_name_le_total(held.language@, rival.language@);
                }
            }
            i += 1;
        }
        proof {
            let name = self.entries@[lead as int].language@;
            lemma_entry_in_map(self.entries@, lead as int);
            assert forall|other: Seq<char>| #[trigger]
                self@.contains_key(other) implies outranks(
                name,
                self@[name],
                other,
                self@[other],
            ) by {
                let p = place_of(self.entries@, other);
                lemma_entry_in_map(self.entries@, p);
                assert(outranks(
                    name,
                    self.entries@[lead as int].time_ms,
                    self.entries@[p].language@,
                    self.entries@[p].time_ms,
                ));
            }
            lemma_primary_is(self@, name);
        }
        Some(self.entries[lead].language.clone())
    }
}

} // verus!
