//! Per-owner enabled/disabled flags, consulted during dispatch.
//!
//! Toggling a flag never reorders or deletes chain entries; the table is a
//! plain owner-to-flag mapping kept in insertion order, so listings can show
//! owners in extension load order.

use vstd::prelude::*;

use crate::text::str_eq;

verus! {

/// The flag recorded for `name`, going by the first entry that carries the
/// name; `None` when no entry does.
pub open spec fn spec_lookup(entries: Seq<(Seq<char>, bool)>, name: Seq<char>) -> Option<bool>
    decreases entries.len(),
{
    if entries.len() == 0 {
        None
    } else if entries[0].0 == name {
        Some(entries[0].1)
    } else {
        spec_lookup(entries.drop_first(), name)
    }
}

/// Every entry that carries `name` is set to `status`; all others are kept.
pub open spec fn spec_set(entries: Seq<(Seq<char>, bool)>, name: Seq<char>, status: bool) -> Seq<
    (Seq<char>, bool),
> {
    entries.map_values(
        |e: (Seq<char>, bool)|
            if e.0 == name {
                (e.0, status)
            } else {
                e
            },
    )
}

/// Every entry is set to `status`.
pub open spec fn spec_set_all(entries: Seq<(Seq<char>, bool)>, status: bool) -> Seq<
    (Seq<char>, bool),
> {
    entries.map_values(|e: (Seq<char>, bool)| (e.0, status))
}

/// Mapping from owner name to its enabled flag, in insertion order.
pub struct StatusTable {
    /// The `(owner, enabled)` entries.
    pub entries: Vec<(String, bool)>,
}

impl View for StatusTable {
    type V = Seq<(Seq<char>, bool)>;

    open spec fn view(&self) -> Seq<(Seq<char>, bool)> {
        self.entries@.map_values(|e: (String, bool)| (e.0@, e.1))
    }
}

impl StatusTable {
    /// Whether `name` is enabled: an owner with no entry counts as disabled.
    pub open spec fn spec_enabled(self, name: Seq<char>) -> bool {
        spec_lookup(self@, name) == Some(true)
    }

    /// An empty table.
    pub fn new() -> (r: Self)
        ensures
            r@ =~= Seq::<(Seq<char>, bool)>::empty(),
    {
        let r = Self { entries: Vec::new() };
        proof {
            assert(r@ =~= Seq::<(Seq<char>, bool)>::empty());
        }
        r
    }

    /// Number of entries.
    pub fn len(&self) -> (r: usize)
        ensures
            r == self@.len(),
    {
        self.entries.len()
    }

    /// The recorded flag for `name`, `None` when the owner is unknown.
    pub fn lookup(&self, name: &str) -> (r: Option<bool>)
        ensures
            r == spec_lookup(self@, name@),
    {
        let n = self.entries.len();
        let mut i: usize = 0;
        proof {
            assert(self@.skip(0) =~= self@);
        }
        while i < n
            invariant
                0 <= i <= n,
                n == self@.len(),
                spec_lookup(self@.skip(i as int), name@) == spec_lookup(self@, name@),
            decreases n - i,
        {
            proof {
                assert(self@.skip(i as int).drop_first() =~= self@.skip(i as int + 1));
            }
            if str_eq(self.entries[i].0.as_str(), name) {
                proof {
                    assert(self@.skip(i as int)[0] == self@[i as int]);
                }
                return Some(self.entries[i].1);
            }
            i = i + 1;
        }
        proof {
            assert(self@.skip(n as int) =~= Seq::<(Seq<char>, bool)>::empty());
        }
        None
    }

    /// Whether `name` is enabled; an unknown owner counts as disabled.
    pub fn is_enabled(&self, name: &str) -> (r: bool)
        ensures
            r == self.spec_enabled(name@),
    {
        match self.lookup(name) {
            Some(true) => true,
            _ => false,
        }
    }

    /// Flip the flag of `name` to `status`.  Returns whether the owner was
    /// found; an unknown owner leaves the table unchanged (and the view
    /// equation below then degenerates to equality).
    pub fn set_status(&mut self, name: &str, status: bool) -> (found: bool)
        ensures
            final(self)@ == spec_set(old(self)@, name@, status),
            found == (spec_lookup(old(self)@, name@) is Some),
            !found ==> *final(self) == *old(self),
    {
        let ghost pre = self@;
        let n = self.entries.len();
        let mut found = false;
        let mut i: usize = 0;
        while i < n
            invariant
                0 <= i <= n,
                n == self@.len(),
                n == pre.len(),
                forall|j: int| 0 <= j < i ==> self@[j] == spec_set(pre, name@, status)[j],
                forall|j: int| i <= j < n ==> self@[j] == pre[j],
                found == exists|j: int| 0 <= j < i && pre[j].0 == name@,
                !found ==> self.entries == old(self).entries,
            decreases n - i,
        {
            let ghost prev_view = self@;
            if str_eq(self.entries[i].0.as_str(), name) {
                let owner = self.entries[i].0.clone();
                self.entries[i] = (owner, status);
                found = true;
                proof {
                    assert(pre[i as int].0 == name@);
                    assert forall|j: int| 0 <= j < i + 1 implies self@[j] == spec_set(
                        pre,
                        name@,
                        status,
                    )[j] by {
                        if j == i as int {
                            assert(self@[j] == (pre[j].0, status));
                        } else {
                            assert(self@[j] == prev_view[j]);
                        }
                    }
                }
            } else {
                proof {
                    assert(pre[i as int].0 != name@);
                    assert(self@[i as int] == pre[i as int]);
                }
            }
            i = i + 1;
        }
        proof {
            assert(self@ =~= spec_set(pre, name@, status));
            lemma_lookup_exists(pre, name@);
        }
        found
    }

    /// Record `name` with `status`: update every entry carrying the name, or
    /// append a fresh entry when the owner is new.
    pub fn upsert(&mut self, name: String, status: bool)
        ensures
            spec_lookup(old(self)@, name@) is Some ==> final(self)@ == spec_set(
                old(self)@,
                name@,
                status,
            ),
            spec_lookup(old(self)@, name@) is None ==> final(self)@ == old(self)@.push(
                (name@, status),
            ),
    {
        let found = self.set_status(name.as_str(), status);
        if !found {
            let ghost pre_push = self@;
            self.entries.push((name, status));
            proof {
                assert(self@ =~= pre_push.push((name@, status)));
                lemma_lookup_exists(old(self)@, name@);
                assert(spec_set(old(self)@, name@, status) =~= old(self)@);
            }
        }
    }

    /// Flip every owner's flag to `status`.
    pub fn set_all(&mut self, status: bool)
        ensures
            final(self)@ == spec_set_all(old(self)@, status),
    {
        let ghost pre = self@;
        let n = self.entries.len();
        let mut i: usize = 0;
        while i < n
            invariant
                0 <= i <= n,
                n == self@.len(),
                n == pre.len(),
                forall|j: int| 0 <= j < i ==> self@[j] == spec_set_all(pre, status)[j],
                forall|j: int| i <= j < n ==> self@[j] == pre[j],
            decreases n - i,
        {
            let owner = self.entries[i].0.clone();
            self.entries[i] = (owner, status);
            i = i + 1;
        }
        proof {
            assert(self@ =~= spec_set_all(pre, status));
        }
    }
}

/// A first-match lookup succeeds exactly when some entry carries the name.
pub proof fn lemma_lookup_exists(entries: Seq<(Seq<char>, bool)>, name: Seq<char>)
    ensures
        spec_lookup(entries, name) is Some <==> exists|j: int|
            0 <= j < entries.len() && entries[j].0 == name,
    decreases entries.len(),
{
    if entries.len() > 0 {
        lemma_lookup_exists(entries.drop_first(), name);
        if entries[0].0 == name {
        } else if spec_lookup(entries.drop_first(), name) is Some {
            let j = choose|j: int|
                0 <= j < entries.drop_first().len() && entries.drop_first()[j].0 == name;
            assert(entries[j + 1].0 == name);
        } else {
            assert forall|j: int| 0 <= j < entries.len() implies entries[j].0 != name by {
                if j > 0 {
                    assert(entries.drop_first()[j - 1] == entries[j]);
                }
            }
        }
    }
}

/// Looking a name up after a `spec_set` of possibly another name: the flag of
/// the set name changes (when present at all), every other name keeps its
/// flag.
pub proof fn lemma_lookup_after_set(
    entries: Seq<(Seq<char>, bool)>,
    name: Seq<char>,
    status: bool,
    queried: Seq<char>,
)
    ensures
        spec_lookup(spec_set(entries, name, status), queried) == (if queried == name {
            match spec_lookup(entries, name) {
                Some(_) => Some(status),
                None => None,
            }
        } else {
            spec_lookup(entries, queried)
        }),
    decreases entries.len(),
{
    if entries.len() > 0 {
        lemma_lookup_after_set(entries.drop_first(), name, status, queried);
        assert(spec_set(entries, name, status).drop_first() =~= spec_set(
            entries.drop_first(),
            name,
            status,
        ));
    }
}

} // verus!
