//! The environments of recent clients, by fingerprint.

use crate::text;
use crate::text::{owned, same};
use vstd::prelude::*;

verus! {

/// One variable of an environment.
#[derive(Debug)]
pub struct EnvVar {
    pub key: String,
    pub value: String,
}

/// A variable as a pair of texts: its name and its value.
pub type VarText = (Seq<char>, Seq<char>);

impl EnvVar {
    pub open spec fn view(&self) -> VarText {
        (self.key@, self.value@)
    }
}

impl Clone for EnvVar {
    fn clone(&self) -> (r: Self)
        ensures
            r@ == self@,
    {
        EnvVar { key: owned(self.key.as_str()), value: owned(self.value.as_str()) }
    }
}

/// The texts of a list of variables.
pub open spec fn var_views(v: Seq<EnvVar>) -> Seq<VarText> {
    Seq::new(v.len(), |i: int| v[i]@)
}

/// The value of the first variable called `key`.
pub open spec fn first_value(vars: Seq<VarText>, key: Seq<char>) -> Option<Seq<char>>
    decreases vars.len(),
{
    if vars.len() == 0 {
        None
    } else if vars[0].0 == key {
        Some(vars[0].1)
    } else {
        first_value(vars.drop_first(), key)
    }
}

/// The value of the first variable called `key`.
pub fn find_value<'a>(vars: &'a [EnvVar], key: &str) -> (r: Option<&'a str>)
    ensures
        text::opt_str(r) == first_value(var_views(vars@), key@),
{
    let ghost all = var_views(vars@);
    let mut i: usize = 0;
    assert(all.skip(0) =~= all);
    while i < vars.len()
        invariant
            i <= vars@.len(),
            all == var_views(vars@),
            first_value(all, key@) == first_value(all.skip(i as int), key@),
        decreases vars@.len() - i,
    {
        assert(all.skip(i as int).drop_first() =~= all.skip(i + 1));
        if same(vars[i].key.as_str(), key) {
            return Some(vars[i].value.as_str());
        }
        i = i + 1;
    }
    None
}

/// The value of the last variable called `key`.
pub open spec fn last_var(vars: Seq<VarText>, key: Seq<char>) -> Option<Seq<char>>
    decreases vars.len(),
{
    if vars.len() == 0 {
        None
    } else if vars.last().0 == key {
        Some(vars.last().1)
    } else {
        last_var(vars.drop_last(), key)
    }
}

/// The value of the last variable called `key`.
pub fn find_last<'a>(vars: &'a [EnvVar], key: &str) -> (r: Option<&'a str>)
    ensures
        text::opt_str(r) == last_var(var_views(vars@), key@),
{
    let ghost all = var_views(vars@);
    let mut i: usize = vars.len();
    assert(all.take(i as int) =~= all);
    while i > 0
        invariant
            i <= vars@.len(),
            all == var_views(vars@),
            last_var(all, key@) == last_var(all.take(i as int), key@),
        decreases i,
    {
        i = i - 1;
        assert(all.take(i + 1).drop_last() =~= all.take(i as int));
        if same(vars[i].key.as_str(), key) {
            return Some(vars[i].value.as_str());
        }
    }
    None
}

/// Copies a list of variables.
pub fn copy_vars(vars: &[EnvVar]) -> (r: Vec<EnvVar>)
    ensures
        var_views(r@) == var_views(vars@),
{
    let mut out: Vec<EnvVar> = Vec::new();
    let mut i: usize = 0;
    while i < vars.len()
        invariant
            i <= vars@.len(),
            out@.len() == i,
            forall|j: int| 0 <= j < i ==> (#[trigger] out@[j])@ == vars@[j]@,
        decreases vars@.len() - i,
    {
        out.push(vars[i].clone());
        i = i + 1;
    }
    assert(var_views(out@) =~= var_views(vars@));
    out
}

struct Entry {
    fingerprint: u64,
    env: Vec<EnvVar>,
    julia_project: Option<String>,
    access_time: u64,
}

/// An environment that was found.
pub struct LookupResult<'a> {
    pub env: &'a [EnvVar],
    pub julia_project: Option<&'a str>,
}

/// A few environments. A lookup marks what it finds as used; where no place
/// is empty, a new environment takes the place of the one used longest ago.
pub struct EnvCache {
    entries: Vec<Option<Entry>>,
    counter: u64,
}

/// The number of environments kept.
pub const SLOTS: usize = 5;

// ---------------------------------------------------------------------
// Model
// ---------------------------------------------------------------------

/// A kept environment and the time of its last use.
pub struct Kept {
    pub fingerprint: u64,
    pub env: Seq<VarText>,
    pub used: u64,
}

/// The project that an environment names.
pub open spec fn project_of(env: Seq<VarText>) -> Option<Seq<char>> {
    first_value(env, "JULIA_PROJECT"@)
}

/// An environment that was found, and the project that it names.
pub type Found = (Seq<VarText>, Option<Seq<char>>);

pub open spec fn found_view(r: Option<(&[EnvVar], Option<&str>)>) -> Option<Found> {
    match r {
        Some((env, project)) => Some((var_views(env@), text::opt_str(project))),
        None => None,
    }
}

/// What is kept was used before `uses`, each at a time of its own.
pub open spec fn used_apart(slots: Seq<Option<Kept>>, uses: u64) -> bool {
    &&& forall|i: int|
        0 <= i < slots.len() && (#[trigger] slots[i]) is Some ==> slots[i]->0.used < uses
    &&& forall|i: int, j: int|
        0 <= i < j < slots.len() && (#[trigger] slots[i]) is Some && (#[trigger] slots[j]) is Some
            ==> slots[i]->0.used != slots[j]->0.used
}

/// Place `i` keeps the environment with `fingerprint`.
pub open spec fn holds(slots: Seq<Option<Kept>>, i: int, fingerprint: u64) -> bool {
    0 <= i < slots.len() && slots[i] is Some && slots[i]->0.fingerprint == fingerprint
}

/// The fingerprints of what is kept.
pub open spec fn fingerprints(slots: Seq<Option<Kept>>) -> Set<u64> {
    Set::new(|f: u64| exists|i: int| holds(slots, i, f))
}

/// No fingerprint is kept twice.
pub open spec fn each_once(slots: Seq<Option<Kept>>) -> bool {
    forall|i: int, j: int, f: u64|
        #[trigger] holds(slots, i, f) && #[trigger] holds(slots, j, f) ==> i == j
}

/// What is kept under `fingerprint`.
pub open spec fn kept_under(slots: Seq<Option<Kept>>, fingerprint: u64) -> Kept {
    slots[slot_of(slots, fingerprint)]->0
}

/// The first place that holds the environment with `fingerprint`, or the
/// number of places.
pub open spec fn slot_of(slots: Seq<Option<Kept>>, fingerprint: u64) -> int
    decreases slots.len(),
{
    if slots.len() == 0 || (slots[0] matches Some(k) && k.fingerprint == fingerprint) {
        0
    } else {
        1 + slot_of(slots.drop_first(), fingerprint)
    }
}

/// Place `i` is the first empty one.
pub open spec fn first_empty(slots: Seq<Option<Kept>>, i: int) -> bool {
    &&& 0 <= i < slots.len()
    &&& slots[i] is None
    &&& forall|j: int| 0 <= j < i ==> slots[j] is Some
}

/// No place is empty and place `i` was used longest ago.
pub open spec fn longest_unused(slots: Seq<Option<Kept>>, i: int) -> bool {
    &&& 0 <= i < slots.len()
    &&& forall|j: int| 0 <= j < slots.len() ==> slots[j] is Some
    &&& forall|j: int| 0 <= j < slots.len() && j != i ==> slots[i]->0.used < slots[j]->0.used
}

/// Place `i` is where a new environment goes.
pub open spec fn next_slot(slots: Seq<Option<Kept>>, i: int) -> bool {
    first_empty(slots, i) || longest_unused(slots, i)
}

proof fn lemma_slot_of(slots: Seq<Option<Kept>>, fingerprint: u64)
    ensures
        0 <= slot_of(slots, fingerprint) <= slots.len(),
        slot_of(slots, fingerprint) < slots.len() ==> (slots[slot_of(slots, fingerprint)] matches Some(
            k,
        ) && k.fingerprint == fingerprint),
        forall|j: int|
            0 <= j < slot_of(slots, fingerprint) ==> !((#[trigger] slots[j]) matches Some(k)
                && k.fingerprint == fingerprint),
    decreases slots.len(),
{
    if slots.len() > 0 && !(slots[0] matches Some(k) && k.fingerprint == fingerprint) {
        let rest = slots.drop_first();
        lemma_slot_of(rest, fingerprint);
        let n = slot_of(rest, fingerprint);
        assert forall|j: int| 0 <= j < n + 1 implies !((#[trigger] slots[j]) matches Some(k)
            && k.fingerprint == fingerprint) by {
            if j > 0 {
                assert(rest[j - 1] == slots[j]);
            }
        }
    }
}

proof fn lemma_slot_of_is(slots: Seq<Option<Kept>>, fingerprint: u64, i: int)
    requires
        0 <= i <= slots.len(),
        i < slots.len() ==> (slots[i] matches Some(k) && k.fingerprint == fingerprint),
        forall|j: int|
            0 <= j < i ==> !((#[trigger] slots[j]) matches Some(k) && k.fingerprint == fingerprint),
    ensures
        slot_of(slots, fingerprint) == i,
{
    lemma_slot_of(slots, fingerprint);
    let n = slot_of(slots, fingerprint);
    if n < i {
        assert(slots[n] matches Some(k) && k.fingerprint == fingerprint);
    }
    if i < n {
        assert(slots[i] matches Some(k) && k.fingerprint == fingerprint);
    }
}

// ---------------------------------------------------------------------
// Laws
// ---------------------------------------------------------------------

/// An environment that was not kept before is found where it was put.
pub proof fn law_inserted_is_found(slots: Seq<Option<Kept>>, new: Kept, i: int)
    requires
        next_slot(slots, i),
        slot_of(slots, new.fingerprint) == slots.len(),
    ensures
        slot_of(slots.update(i, Some(new)), new.fingerprint) == i,
{
    lemma_slot_of(slots, new.fingerprint);
    let after = slots.update(i, Some(new));
    assert forall|j: int| 0 <= j < i implies !((#[trigger] after[j]) matches Some(k)
        && k.fingerprint == new.fingerprint) by {
        assert(after[j] == slots[j]);
    }
    lemma_slot_of_is(after, new.fingerprint, i);
}

/// What was used after some other kept environment is not the one that goes.
pub proof fn law_recently_used_stays(slots: Seq<Option<Kept>>, i: int, recent: int, older: int)
    requires
        next_slot(slots, i),
        0 <= recent < slots.len(),
        0 <= older < slots.len(),
        slots[recent] is Some,
        slots[older] is Some,
        slots[older]->0.used < slots[recent]->0.used,
    ensures
        i != recent,
{
}

/// There is exactly one place where a new environment goes.
pub proof fn law_next_slot_is_unique(slots: Seq<Option<Kept>>, i: int, j: int)
    requires
        next_slot(slots, i),
        next_slot(slots, j),
    ensures
        i == j,
{
}

proof fn lemma_kept_under(slots: Seq<Option<Kept>>, i: int, f: u64)
    requires
        each_once(slots),
        holds(slots, i, f),
    ensures
        slot_of(slots, f) == i,
        kept_under(slots, f) == slots[i]->0,
{
    assert forall|j: int| 0 <= j < i implies !((#[trigger] slots[j]) matches Some(k)
        && k.fingerprint == f) by {
        if slots[j] matches Some(k) && k.fingerprint == f {
            assert(holds(slots, j, f));
        }
    }
    lemma_slot_of_is(slots, f, i);
}

spec fn filled(slots: Seq<Option<Kept>>) -> nat
    decreases slots.len(),
{
    if slots.len() == 0 {
        0
    } else if slots.last() is Some {
        filled(slots.drop_last()) + 1
    } else {
        filled(slots.drop_last())
    }
}

/// There are as many fingerprints as places that are not empty.
proof fn lemma_fingerprints(slots: Seq<Option<Kept>>)
    requires
        each_once(slots),
    ensures
        fingerprints(slots).finite(),
        fingerprints(slots).len() == filled(slots),
        filled(slots) <= slots.len(),
        filled(slots) == slots.len() <==> forall|i: int|
            0 <= i < slots.len() ==> (#[trigger] slots[i]) is Some,
    decreases slots.len(),
{
    if slots.len() == 0 {
        assert(fingerprints(slots) =~= Set::empty());
    } else {
        let front = slots.drop_last();
        let n = front.len();
        assert forall|i: int, f: u64| holds(front, i, f) <==> #[trigger] holds(slots, i, f) && i < n by {}
        assert(each_once(front)) by {
            assert forall|i: int, j: int, f: u64| #[trigger]
                holds(front, i, f) && #[trigger] holds(front, j, f) implies i == j by {
                assert(holds(slots, i, f) && holds(slots, j, f));
            }
        }
        lemma_fingerprints(front);
        if slots.last() is Some {
            let last = slots.last()->0.fingerprint;
            assert(holds(slots, n as int, last));
            assert(!fingerprints(front).contains(last)) by {
                if fingerprints(front).contains(last) {
                    let i = choose|i: int| holds(front, i, last);
                    assert(holds(slots, i, last));
                }
            }
            assert(fingerprints(slots) =~= fingerprints(front).insert(last)) by {
                assert forall|f: u64| fingerprints(slots).contains(f) == fingerprints(front).insert(
                    last,
                ).contains(f) by {
                    if fingerprints(slots).contains(f) {
                        let i = choose|i: int| holds(slots, i, f);
                        if i < n {
                            assert(holds(front, i, f));
                        }
                    }
                    if fingerprints(front).contains(f) {
                        let i = choose|i: int| holds(front, i, f);
                        assert(holds(slots, i, f));
                    }
                }
            }
        } else {
            assert(fingerprints(slots) =~= fingerprints(front)) by {
                assert forall|f: u64| fingerprints(slots).contains(f) == fingerprints(
                    front,
                ).contains(f) by {
                    if fingerprints(slots).contains(f) {
                        let i = choose|i: int| holds(slots, i, f);
                        assert(holds(front, i, f));
                    }
                    if fingerprints(front).contains(f) {
                        let i = choose|i: int| holds(front, i, f);
                        assert(holds(slots, i, f));
                    }
                }
            }
            assert(slots[n as int] is None);
        }
        assert forall|i: int| 0 <= i < n implies #[trigger] front[i] == slots[i] by {}
        if filled(slots) == slots.len() {
            assert forall|i: int| 0 <= i < slots.len() implies (#[trigger] slots[i]) is Some by {
                if i < n {
                    assert(front[i] is Some);
                }
            }
        }
        if forall|i: int| 0 <= i < slots.len() ==> (#[trigger] slots[i]) is Some {
            assert forall|i: int| 0 <= i < n implies (#[trigger] front[i]) is Some by {
                assert(slots[i] is Some);
            }
            assert(slots[n as int] is Some);
        }
    }
}

/// What was kept under `oldest` was used longest ago.
pub open spec fn is_oldest(slots: Seq<Option<Kept>>, oldest: u64) -> bool {
    &&& fingerprints(slots).contains(oldest)
    &&& forall|f: u64|
        fingerprints(slots).contains(f) && f != oldest ==> kept_under(slots, oldest).used
            < #[trigger] kept_under(slots, f).used
}

/// A new environment comes in beside those that are kept while there is room;
/// then the one used longest ago goes for it, and no other. What stays is
/// kept as it was.
pub proof fn law_insert_makes_room_for_one(
    before: EnvCache,
    after: EnvCache,
    fingerprint: u64,
    env: Seq<VarText>,
)
    requires
        before.wf(),
        each_once(before.slots()),
        !fingerprints(before.slots()).contains(fingerprint),
        after.has_inserted(&before, fingerprint, env),
    ensures
        each_once(after.slots()),
        fingerprints(after.slots()).finite(),
        fingerprints(after.slots()).len() <= SLOTS,
        kept_under(after.slots(), fingerprint) == (Kept {
            fingerprint,
            env,
            used: before.uses(),
        }),
        forall|f: u64|
            fingerprints(after.slots()).contains(f) && f != fingerprint ==> #[trigger] kept_under(
                after.slots(),
                f,
            ) == kept_under(before.slots(), f),
        if fingerprints(before.slots()).len() < SLOTS {
            fingerprints(after.slots()) == fingerprints(before.slots()).insert(fingerprint)
        } else {
            exists|oldest: u64| #[trigger]
                is_oldest(before.slots(), oldest) && fingerprints(after.slots()) == fingerprints(
                    before.slots(),
                ).remove(oldest).insert(fingerprint)
        },
{
    let s = before.slots();
    let t = after.slots();
    before.law_sound_cache_has_its_slots();
    let i = choose|i: int| #[trigger]
        next_slot(s, i) && t == s.update(
            i,
            Some(Kept { fingerprint, env, used: before.uses() }),
        );
    assert forall|j: int, f: u64| #[trigger] holds(t, j, f) implies if j == i {
        f == fingerprint
    } else {
        holds(s, j, f) && f != fingerprint
    } by {
        if j != i {
            assert(holds(s, j, f));
        }
    }
    assert(holds(t, i, fingerprint));
    assert(each_once(t)) by {
        assert forall|j: int, k: int, f: u64| #[trigger]
            holds(t, j, f) && #[trigger] holds(t, k, f) implies j == k by {
            if j != i && k != i {
                assert(holds(s, j, f) && holds(s, k, f));
            }
        }
    }
    lemma_fingerprints(s);
    lemma_fingerprints(t);
    lemma_kept_under(t, i, fingerprint);
    assert forall|f: u64|
        fingerprints(t).contains(f) && f != fingerprint implies #[trigger] kept_under(t, f)
        == kept_under(s, f) by {
        let j = choose|j: int| holds(t, j, f);
        lemma_kept_under(t, j, f);
        lemma_kept_under(s, j, f);
    }
    if first_empty(s, i) {
        assert(s[i] is None);
        assert forall|f: u64| fingerprints(t).contains(f) == fingerprints(s).insert(
            fingerprint,
        ).contains(f) by {
            if fingerprints(t).contains(f) {
                let j = choose|j: int| holds(t, j, f);
                assert(j == i || holds(s, j, f));
            }
            if fingerprints(s).contains(f) {
                let j = choose|j: int| holds(s, j, f);
                assert(holds(t, j, f));
            }
        }
        assert(fingerprints(t) =~= fingerprints(s).insert(fingerprint));
    } else {
        let oldest = s[i]->0.fingerprint;
        assert(holds(s, i, oldest));
        lemma_kept_under(s, i, oldest);
        assert forall|f: u64| fingerprints(s).contains(f) && f != oldest implies kept_under(
            s,
            oldest,
        ).used < #[trigger] kept_under(s, f).used by {
            let j = choose|j: int| holds(s, j, f);
            lemma_kept_under(s, j, f);
        }
        assert(is_oldest(s, oldest));
        assert forall|f: u64| fingerprints(t).contains(f) == fingerprints(s).remove(oldest).insert(
            fingerprint,
        ).contains(f) by {
            if fingerprints(t).contains(f) {
                let j = choose|j: int| holds(t, j, f);
                if j != i {
                    assert(holds(s, j, f));
                    assert(f != oldest) by {
                        if f == oldest {
                            assert(holds(s, j, oldest));
                        }
                    }
                }
            }
            if fingerprints(s).contains(f) && f != oldest {
                let j = choose|j: int| holds(s, j, f);
                assert(holds(t, j, f));
            }
        }
        assert(fingerprints(t) =~= fingerprints(s).remove(oldest).insert(fingerprint));
    }
}

/// An environment that was not kept before is found as it was inserted, with
/// the project that it names.
pub proof fn law_inserted_is_looked_up(
    before: EnvCache,
    kept: EnvCache,
    after: EnvCache,
    fingerprint: u64,
    env: Seq<VarText>,
    r: Option<Found>,
)
    requires
        before.wf(),
        !fingerprints(before.slots()).contains(fingerprint),
        kept.has_inserted(&before, fingerprint, env),
        after.has_looked_up(&kept, fingerprint, r),
    ensures
        r == Some((env, project_of(env))),
{
    let s = before.slots();
    let new = Kept { fingerprint, env, used: before.uses() };
    before.law_sound_cache_has_its_slots();
    lemma_slot_of(s, fingerprint);
    if slot_of(s, fingerprint) < s.len() {
        assert(holds(s, slot_of(s, fingerprint), fingerprint));
    }
    let i = choose|i: int| #[trigger] next_slot(s, i) && kept.slots() == s.update(i, Some(new));
    law_inserted_is_found(s, new, i);
}

// ---------------------------------------------------------------------
// Operations
// ---------------------------------------------------------------------

impl Entry {
    spec fn kept(&self) -> Kept {
        Kept { fingerprint: self.fingerprint, env: var_views(self.env@), used: self.access_time }
    }
}

spec fn kept_of(e: Option<Entry>) -> Option<Kept> {
    match e {
        Some(e) => Some(e.kept()),
        None => None,
    }
}

impl EnvCache {
    /// The places and what they keep.
    pub closed spec fn slots(&self) -> Seq<Option<Kept>> {
        Seq::new(self.entries@.len(), |i: int| kept_of(self.entries@[i]))
    }

    /// The number of uses so far.
    pub closed spec fn uses(&self) -> u64 {
        self.counter
    }

    /// Every place was used at a time of its own, in the past; with each
    /// environment its project is kept.
    pub closed spec fn wf(&self) -> bool {
        &&& self.entries@.len() == SLOTS
        &&& forall|i: int|
            0 <= i < SLOTS && (#[trigger] self.entries@[i]) is Some ==> {
                let e = self.entries@[i]->0;
                &&& e.access_time < self.counter
                &&& text::opt_view(e.julia_project) == project_of(var_views(e.env@))
            }
        &&& forall|i: int, j: int|
            0 <= i < j < SLOTS && (#[trigger] self.entries@[i]) is Some && (
            #[trigger] self.entries@[j]) is Some ==> self.entries@[i]->0.access_time
                != self.entries@[j]->0.access_time
    }

    /// A sound cache has as many places as environments are kept, and none was
    /// used in the future, or at the same time as another.
    pub proof fn law_sound_cache_has_its_slots(&self)
        requires
            self.wf(),
        ensures
            self.slots().len() == SLOTS,
            used_apart(self.slots(), self.uses()),
    {
        assert forall|i: int| 0 <= i < SLOTS implies #[trigger] self.slots()[i] == kept_of(
            self.entries@[i],
        ) by {}
        assert forall|i: int| 0 <= i < SLOTS && (
        #[trigger] self.slots()[i]) is Some implies self.slots()[i]->0.used < self.uses() by {
            assert(self.entries@[i] is Some);
        }
        assert forall|i: int, j: int|
            0 <= i < j < SLOTS && (#[trigger] self.slots()[i]) is Some && (
            #[trigger] self.slots()[j]) is Some implies self.slots()[i]->0.used
            != self.slots()[j]->0.used by {
            assert(self.entries@[i] is Some && self.entries@[j] is Some);
        }
    }

    /// This is `other` after a lookup of `fingerprint` with the result `r`:
    /// what is found counts as used.
    pub open spec fn has_looked_up(
        &self,
        other: &EnvCache,
        fingerprint: u64,
        r: Option<Found>,
    ) -> bool {
        let slots = other.slots();
        let i = slot_of(slots, fingerprint);
        if i < SLOTS {
            &&& r == Some((slots[i]->0.env, project_of(slots[i]->0.env)))
            &&& self.uses() == other.uses() + 1
            &&& self.slots() == slots.update(i, Some(Kept { used: other.uses(), ..slots[i]->0 }))
        } else {
            &&& r is None
            &&& self.uses() == other.uses()
            &&& self.slots() == slots
        }
    }

    /// This is `other` after `env` was kept under `fingerprint`.
    pub open spec fn has_inserted(
        &self,
        other: &EnvCache,
        fingerprint: u64,
        env: Seq<VarText>,
    ) -> bool {
        &&& self.uses() == other.uses() + 1
        &&& exists|i: int| #[trigger]
            next_slot(other.slots(), i) && self.slots() == other.slots().update(
                i,
                Some(Kept { fingerprint, env, used: other.uses() }),
            )
    }

    pub fn new() -> (r: Self)
        ensures
            r.wf(),
            r.uses() == 0,
            r.slots() == Seq::new(SLOTS as nat, |i: int| None::<Kept>),
    {
        let mut entries: Vec<Option<Entry>> = Vec::new();
        entries.push(None);
        entries.push(None);
        entries.push(None);
        entries.push(None);
        entries.push(None);
        let r = EnvCache { entries, counter: 0 };
        assert(r.slots() =~= Seq::new(SLOTS as nat, |i: int| None::<Kept>));
        r
    }

    /// Whether one more use can be counted.
    pub fn can_count(&self) -> (r: bool)
        ensures
            r == (self.uses() < u64::MAX),
    {
        self.counter < u64::MAX
    }

    /// Where the environment with `fingerprint` is.
    fn position(&self, fingerprint: u64) -> (r: Option<usize>)
        requires
            self.wf(),
        ensures
            match r {
                Some(i) => i < SLOTS && i == slot_of(self.slots(), fingerprint),
                None => slot_of(self.slots(), fingerprint) == SLOTS,
            },
    {
        let mut i: usize = 0;
        while i < self.entries.len()
            invariant
                self.wf(),
                i <= SLOTS,
                forall|j: int|
                    0 <= j < i ==> !((#[trigger] self.slots()[j]) matches Some(k) && k.fingerprint
                        == fingerprint),
            decreases SLOTS - i,
        {
            assert(self.slots()[i as int] == kept_of(self.entries@[i as int]));
            match &self.entries[i] {
                Some(e) => {
                    if e.fingerprint == fingerprint {
                        proof {
                            lemma_slot_of_is(self.slots(), fingerprint, i as int);
                        }
                        return Some(i);
                    }
                },
                None => {},
            }
            i = i + 1;
        }
        proof {
            lemma_slot_of_is(self.slots(), fingerprint, SLOTS as int);
        }
        None
    }

    /// What place `i` keeps.
    fn found(&self, i: usize) -> (r: LookupResult<'_>)
        requires
            self.wf(),
            i < SLOTS,
            self.slots()[i as int] is Some,
        ensures
            var_views(r.env@) == self.slots()[i as int]->0.env,
            text::opt_str(r.julia_project) == project_of(self.slots()[i as int]->0.env),
    {
        assert(self.slots()[i as int] == kept_of(self.entries@[i as int]));
        match &self.entries[i] {
            Some(e) => LookupResult {
                env: e.env.as_slice(),
                julia_project: match &e.julia_project {
                    Some(p) => Some(p.as_str()),
                    None => None,
                },
            },
            None => LookupResult { env: &[], julia_project: None },
        }
    }

    /// The environment with `fingerprint` and the project that it names, if
    /// it is kept. It counts as used.
    pub fn lookup(&mut self, fingerprint: u64) -> (r: Option<(&[EnvVar], Option<&str>)>)
        requires
            old(self).wf(),
            old(self).uses() < u64::MAX,
        ensures
            final(self).wf(),
            final(self).has_looked_up(old(self), fingerprint, found_view(r)),
    {
        match self.position(fingerprint) {
            None => None,
            Some(i) => {
                proof {
                    lemma_slot_of(self.slots(), fingerprint);
                    assert(self.slots()[i as int] == kept_of(self.entries@[i as int]));
                }
                let ghost before = *self;
                let now: u64 = self.counter;
                let taken = self.entries.remove(i);
                if let Some(e) = taken {
                    let fresh = Entry {
                        fingerprint: e.fingerprint,
                        env: e.env,
                        julia_project: e.julia_project,
                        access_time: now,
                    };
                    self.entries.insert(i, Some(fresh));
                }
                self.counter = now + 1;
                proof {
                    let k = before.entries@[i as int]->0;
                    let e = self.entries@[i as int];
                    assert(self.entries@ =~= before.entries@.update(i as int, e));
                    assert(self.slots() =~= before.slots().update(
                        i as int,
                        Some(Kept { used: now, ..before.slots()[i as int]->0 }),
                    ));
                }
                let hit = self.found(i);
                Some((hit.env, hit.julia_project))
            },
        }
    }

    /// The place for a new environment.
    fn eviction_slot(&self) -> (r: usize)
        requires
            self.wf(),
        ensures
            next_slot(self.slots(), r as int),
    {
        let mut oldest: usize = 0;
        let mut i: usize = 0;
        while i < self.entries.len()
            invariant
                self.wf(),
                i <= SLOTS,
                oldest < SLOTS,
                i > 0 ==> oldest < i,
                i == 0 ==> oldest == 0,
                forall|j: int| 0 <= j < i ==> (#[trigger] self.entries@[j]) is Some,
                forall|j: int|
                    0 <= j < i && j != oldest ==> self.entries@[oldest as int]->0.access_time < (
                    #[trigger] self.entries@[j])->0.access_time,
            decreases SLOTS - i,
        {
            match &self.entries[i] {
                None => {
                    assert(first_empty(self.slots(), i as int));
                    return i;
                },
                Some(e) => {
                    match &self.entries[oldest] {
                        Some(o) => {
                            if e.access_time < o.access_time {
                                oldest = i;
                            }
                        },
                        None => {},
                    }
                },
            }
            i = i + 1;
        }
        assert(longest_unused(self.slots(), oldest as int));
        oldest
    }

    /// Keeps `env` under `fingerprint`, in an empty place or in that of the
    /// environment used longest ago. An environment kept under the same
    /// fingerprint is left where it is.
    pub fn insert(&mut self, fingerprint: u64, env: Vec<EnvVar>) -> (r: (&[EnvVar], Option<&str>))
        requires
            old(self).wf(),
            old(self).uses() < u64::MAX,
        ensures
            final(self).wf(),
            final(self).has_inserted(old(self), fingerprint, var_views(env@)),
            found_view(Some(r)) == Some((var_views(env@), project_of(var_views(env@)))),
    {
        let julia_project: Option<String> = match find_value(env.as_slice(), "JULIA_PROJECT") {
            Some(p) => Some(owned(p)),
            None => None,
        };
        let slot: usize = self.eviction_slot();
        let ghost before = *self;
        let now: u64 = self.counter;
        let ghost texts = var_views(env@);
        self.entries.set(slot, Some(Entry { fingerprint, env, julia_project, access_time: now }));
        self.counter = now + 1;
        assert(self.slots() =~= before.slots().update(
            slot as int,
            Some(Kept { fingerprint, env: texts, used: now }),
        ));
        let hit = self.found(slot);
        (hit.env, hit.julia_project)
    }
}

} // verus!
