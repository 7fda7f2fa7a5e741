//! The window/database registry: process-wide state mapping each live
//! window's label to the database path open in it, plus the one-way
//! quitting flag that suppresses redundant session writes.

use vstd::prelude::*;

verus! {

/// The map described by a sequence of (label, path) entries; a later
/// entry for the same label wins.
pub open spec fn map_of(s: Seq<(Seq<char>, Seq<char>)>) -> Map<Seq<char>, Seq<char>>
    decreases s.len(),
{
    if s.len() == 0 {
        Map::empty()
    } else {
        map_of(s.drop_last()).insert(s.last().0, s.last().1)
    }
}

/// No two entries share a label.
pub open spec fn labels_distinct(s: Seq<(Seq<char>, Seq<char>)>) -> bool {
    forall|i: int, j: int| 0 <= i < j < s.len() ==> s[i].0 != s[j].0
}

/// A key is in the map exactly when some entry carries it as label.
pub proof fn lemma_map_of_contains(s: Seq<(Seq<char>, Seq<char>)>, k: Seq<char>)
    ensures
        map_of(s).contains_key(k) <==> exists|i: int|
            0 <= i < s.len() && (#[trigger] s[i]).0 == k,
    decreases s.len(),
{
    if s.len() > 0 {
        lemma_map_of_contains(s.drop_last(), k);
        if s.last().0 == k {
            assert((s[s.len() - 1]).0 == k);
        } else if exists|i: int| 0 <= i < s.len() && (#[trigger] s[i]).0 == k {
            let i = choose|i: int| 0 <= i < s.len() && (#[trigger] s[i]).0 == k;
            if i < s.len() - 1 {
                assert((s.drop_last()[i]).0 == k);
            }
        }
    }
}

/// With distinct labels, each entry is in the map with its own path.
pub proof fn lemma_map_of_index(s: Seq<(Seq<char>, Seq<char>)>, i: int)
    requires
        labels_distinct(s),
        0 <= i < s.len(),
    ensures
        map_of(s).contains_key(s[i].0),
        map_of(s)[s[i].0] == s[i].1,
    decreases s.len(),
{
    if i < s.len() - 1 {
        assert(labels_distinct(s.drop_last()));
        lemma_map_of_index(s.drop_last(), i);
        assert(s.drop_last()[i] == s[i]);
        assert(s.last().0 != s[i].0);
    }
}

/// Appending an entry inserts its binding.
pub proof fn lemma_map_of_push(s: Seq<(Seq<char>, Seq<char>)>, l: Seq<char>, p: Seq<char>)
    ensures
        map_of(s.push((l, p))) == map_of(s).insert(l, p),
{
    assert(s.push((l, p)).drop_last() =~= s);
    assert(s.push((l, p)).last() == (l, p));
}

/// With distinct labels, deleting entry `i` removes its binding.
pub proof fn lemma_map_of_remove(s: Seq<(Seq<char>, Seq<char>)>, i: int)
    requires
        labels_distinct(s),
        0 <= i < s.len(),
    ensures
        map_of(s.remove(i)) =~= map_of(s).remove(s[i].0),
    decreases s.len(),
{
    if i == s.len() - 1 {
        assert(s.remove(i) =~= s.drop_last());
        lemma_map_of_contains(s.drop_last(), s[i].0);
        assert(forall|j: int|
            0 <= j < s.drop_last().len() ==> (#[trigger] s.drop_last()[j]).0 != s[i].0);
        assert(!map_of(s.drop_last()).contains_key(s[i].0));
        assert(map_of(s.drop_last()).insert(s.last().0, s.last().1).remove(s[i].0) =~= map_of(
            s.drop_last(),
        ));
    } else {
        assert(labels_distinct(s.drop_last()));
        lemma_map_of_remove(s.drop_last(), i);
        assert(s.remove(i).drop_last() =~= s.drop_last().remove(i));
        assert(s.remove(i).last() == s.last());
        assert(s.last().0 != s[i].0);
        assert(s.drop_last()[i] == s[i]);
        assert(map_of(s.remove(i)) == map_of(s.drop_last().remove(i)).insert(
            s.last().0,
            s.last().1,
        ));
        assert(map_of(s.drop_last()).remove(s[i].0).insert(s.last().0, s.last().1) =~= map_of(
            s.drop_last(),
        ).insert(s.last().0, s.last().1).remove(s[i].0));
    }
}

/// The paths carried by a sequence of entries, in entry order.
pub open spec fn paths_of(s: Seq<(Seq<char>, Seq<char>)>) -> Seq<Seq<char>> {
    s.map_values(|e: (Seq<char>, Seq<char>)| e.1)
}

fn find_index(entries: &Vec<(String, String)>, label: &String) -> (r: Option<usize>)
    ensures
        match r {
            Some(i) => i < entries@.len() && entries@[i as int].0@ == label@,
            None => forall|j: int|
                0 <= j < entries@.len() ==> (#[trigger] entries@[j]).0@ != label@,
        },
{
    let mut i: usize = 0;
    while i < entries.len()
        invariant
            i <= entries@.len(),
            forall|j: int| 0 <= j < i ==> (#[trigger] entries@[j]).0@ != label@,
        decreases entries@.len() - i,
    {
        if entries[i].0 == *label {
            return Some(i);
        }
        i = i + 1;
    }
    None
}

/// The registry: (label, path) entries with distinct labels, and the
/// one-way quitting flag.
pub struct Registry {
    entries: Vec<(String, String)>,
    quitting: bool,
}

impl View for Registry {
    type V = Map<Seq<char>, Seq<char>>;

    closed spec fn view(&self) -> Map<Seq<char>, Seq<char>> {
        map_of(self.entries_seq())
    }
}

impl Registry {
    /// The entries as they currently stand, in insertion order.
    pub closed spec fn entries_seq(self) -> Seq<(Seq<char>, Seq<char>)> {
        self.entries@.map_values(|e: (String, String)| (e.0@, e.1@))
    }

    /// Whether the quit sequence has begun.
    pub closed spec fn is_quitting(self) -> bool {
        self.quitting
    }

    /// Entry labels are pairwise distinct.
    pub closed spec fn wf(self) -> bool {
        labels_distinct(self.entries_seq())
    }

    /// The registry's map is the one its entry sequence describes.
    pub proof fn lemma_view_is_entries(self)
        ensures
            self@ == map_of(self.entries_seq()),
    {
    }

    /// The registry's abstract state, as the trace model sees it.
    pub open spec fn model(self) -> RegistryModel {
        RegistryModel { map: self@, quitting: self.is_quitting() }
    }

    /// An empty registry, not quitting.
    pub fn new() -> (r: Registry)
        ensures
            r.wf(),
            r@ == Map::<Seq<char>, Seq<char>>::empty(),
            !r.is_quitting(),
            r.entries_seq() == Seq::<(Seq<char>, Seq<char>)>::empty(),
    {
        let r = Registry { entries: Vec::new(), quitting: false };
        proof {
            assert(r.entries_seq() =~= Seq::<(Seq<char>, Seq<char>)>::empty());
        }
        r
    }

    /// Registers (or re-registers) the database open in a window:
    /// an unconditional insert/overwrite of the map entry.
    pub fn register(&mut self, label: String, path: String)
        requires
            old(self).wf(),
        ensures
            final(self).wf(),
            final(self)@ == old(self)@.insert(label@, path@),
            final(self).is_quitting() == old(self).is_quitting(),
            (final(self).model() == apply_op(
                old(self).model(),
                RegistryOp::Register { label: label@, path: path@ },
            )),
    {
        let ghost s0 = self.entries_seq();
        match find_index(&self.entries, &label) {
            Some(i) => {
                proof {
                    lemma_map_of_remove(s0, i as int);
                }
                self.entries.remove(i);
                proof {
                    assert(self.entries_seq() =~= s0.remove(i as int));
                }
            },
            None => {},
        }
        let ghost s1 = self.entries_seq();
        proof {
            assert(forall|j: int| 0 <= j < s1.len() ==> (#[trigger] s1[j]).0 != label@);
        }
        self.entries.push((label, path));
        proof {
            assert(self.entries_seq() =~= s1.push((label@, path@)));
            lemma_map_of_push(s1, label@, path@);
            assert(labels_distinct(s1.push((label@, path@))));
            assert(map_of(s1).insert(label@, path@) =~= map_of(s0).insert(label@, path@));
        }
    }

    /// Removes the entry for a closing window, if any. Returns whether
    /// the caller owes a session snapshot write: true exactly when the
    /// quit sequence has not begun (once quitting, the quit path owns
    /// the final write).
    pub fn unregister(&mut self, label: &String) -> (write_snapshot: bool)
        requires
            old(self).wf(),
        ensures
            final(self).wf(),
            final(self)@ == old(self)@.remove(label@),
            final(self).is_quitting() == old(self).is_quitting(),
            write_snapshot == !old(self).is_quitting(),
            (final(self).model() == apply_op(
                old(self).model(),
                RegistryOp::Unregister { label: label@ },
            )),
    {
        let ghost s0 = self.entries_seq();
        match find_index(&self.entries, label) {
            Some(i) => {
                proof {
                    lemma_map_of_remove(s0, i as int);
                }
                self.entries.remove(i);
                proof {
                    assert(self.entries_seq() =~= s0.remove(i as int));
                }
            },
            None => {
                proof {
                    lemma_map_of_contains(s0, label@);
                    assert(map_of(s0).remove(label@) =~= map_of(s0));
                }
            },
        }
        !self.quitting
    }

    /// Finds a window whose open database path equals `path` exactly;
    /// the returned label is the window to focus. Returns `None` iff no
    /// registered entry's value equals `path`.
    pub fn find_window_for_database(&self, path: &String) -> (r: Option<String>)
        requires
            self.wf(),
        ensures
            match r {
                Some(label) => self@.contains_key(label@) && self@[label@] == path@,
                None => forall|l: Seq<char>| #[trigger] self@.contains_key(l) ==> self@[l] != path@,
            },
            r.is_some() <==> exists|l: Seq<char>| #[trigger] self@.contains_key(l) && self@[l]
                == path@,
    {
        let ghost s0 = self.entries_seq();
        let mut i: usize = 0;
        while i < self.entries.len()
            invariant
                i <= s0.len(),
                s0 == self.entries_seq(),
                self.wf(),
                forall|j: int| 0 <= j < i ==> (#[trigger] s0[j]).1 != path@,
            decreases s0.len() - i,
        {
            if self.entries[i].1 == *path {
                let label = self.entries[i].0.clone();
                proof {
                    assert(s0[i as int] == (self.entries@[i as int].0@, self.entries@[
                        i as int
                    ].1@));
                    lemma_map_of_index(s0, i as int);
                    assert(self@.contains_key(s0[i as int].0) && self@[s0[i as int].0] == path@);
                }
                return Some(label);
            }
            i = i + 1;
        }
        proof {
            assert forall|l: Seq<char>| #[trigger] self@.contains_key(l) implies self@[l]
                != path@ by {
                lemma_map_of_contains(s0, l);
                let j = choose|j: int| 0 <= j < s0.len() && (#[trigger] s0[j]).0 == l;
                lemma_map_of_index(s0, j);
            }
        }
        None
    }

    /// Starts the quit sequence: the quitting flag goes true, one-way;
    /// the map is untouched.
    pub fn begin_quit(&mut self)
        requires
            old(self).wf(),
        ensures
            final(self).wf(),
            final(self)@ == old(self)@,
            final(self).entries_seq() == old(self).entries_seq(),
            final(self).is_quitting(),
            (final(self).model() == apply_op(old(self).model(), RegistryOp::Quit)),
    {
        self.quitting = true;
    }

    /// Whether the quit sequence has begun.
    pub fn quitting(&self) -> (r: bool)
        ensures
            r == self.is_quitting(),
    {
        self.quitting
    }

    /// The current entries, for the best-effort geometry pass.
    pub fn entries(&self) -> (r: &Vec<(String, String)>)
        ensures
            r@.map_values(|e: (String, String)| (e.0@, e.1@)) == self.entries_seq(),
    {
        &self.entries
    }

    /// The open database paths, in entry order.
    pub fn open_paths(&self) -> (r: Vec<String>)
        ensures
            r@.map_values(|s: String| s@) == paths_of(self.entries_seq()),
    {
        let ghost s0 = self.entries_seq();
        let mut r: Vec<String> = Vec::new();
        let mut i: usize = 0;
        while i < self.entries.len()
            invariant
                i <= s0.len(),
                s0 == self.entries_seq(),
                r@.map_values(|s: String| s@) == paths_of(s0.take(i as int)),
            decreases s0.len() - i,
        {
            let ghost prev = r@;
            r.push(self.entries[i].1.clone());
            proof {
                assert(s0[i as int] == (self.entries@[i as int].0@, self.entries@[i as int].1@));
                let x = r@.last();
                assert(r@ == prev.push(x));
                prev.lemma_push_map_commute(|s: String| s@, x);
                s0.lemma_map_take_succ(|e: (Seq<char>, Seq<char>)| e.1, i as int);
                assert(r@.map_values(|s: String| s@) =~= paths_of(s0.take(i + 1)));
            }
            i = i + 1;
        }
        proof {
            assert(s0.take(s0.len() as int) =~= s0);
        }
        r
    }
}

/// One registry operation, as an abstract event.
pub enum RegistryOp {
    Register { label: Seq<char>, path: Seq<char> },
    Unregister { label: Seq<char> },
    Quit,
}

/// The registry's abstract state: its map and the quitting flag.
pub struct RegistryModel {
    pub map: Map<Seq<char>, Seq<char>>,
    pub quitting: bool,
}

/// How one operation transforms the abstract state. This is exactly
/// what `Registry::register`, `Registry::unregister` and
/// `Registry::begin_quit` ensure of the concrete registry.
pub open spec fn apply_op(s: RegistryModel, op: RegistryOp) -> RegistryModel {
    match op {
        RegistryOp::Register { label, path } => RegistryModel {
            map: s.map.insert(label, path),
            quitting: s.quitting,
        },
        RegistryOp::Unregister { label } => RegistryModel {
            map: s.map.remove(label),
            quitting: s.quitting,
        },
        RegistryOp::Quit => RegistryModel { map: s.map, quitting: true },
    }
}

/// A whole trace of operations, applied in order.
pub open spec fn apply_ops(s: RegistryModel, ops: Seq<RegistryOp>) -> RegistryModel
    decreases ops.len(),
{
    if ops.len() == 0 {
        s
    } else {
        apply_op(apply_ops(s, ops.drop_last()), ops.last())
    }
}

/// The binding a trace leaves for `label`, starting from `init`: the
/// path of its last registration, unless an unregistration of `label`
/// came later.
pub open spec fn last_binding(
    ops: Seq<RegistryOp>,
    label: Seq<char>,
    init: Option<Seq<char>>,
) -> Option<Seq<char>>
    decreases ops.len(),
{
    if ops.len() == 0 {
        init
    } else {
        match ops.last() {
            RegistryOp::Register { label: l, path } => if l == label {
                Some(path)
            } else {
                last_binding(ops.drop_last(), label, init)
            },
            RegistryOp::Unregister { label: l } => if l == label {
                None
            } else {
                last_binding(ops.drop_last(), label, init)
            },
            RegistryOp::Quit => last_binding(ops.drop_last(), label, init),
        }
    }
}

/// After any sequence of operations the map holds, for each label,
/// exactly the binding registered and not since unregistered: starting
/// from the empty map, `label` is present iff its last mention in the
/// trace is a registration, and then it is bound to that path.
pub proof fn lemma_trace_entries(s: RegistryModel, ops: Seq<RegistryOp>, label: Seq<char>)
    ensures
        ({
            let init = if s.map.contains_key(label) {
                Some(s.map[label])
            } else {
                None
            };
            let m = apply_ops(s, ops).map;
            match last_binding(ops, label, init) {
                Some(p) => m.contains_key(label) && m[label] == p,
                None => !m.contains_key(label),
            }
        }),
    decreases ops.len(),
{
    if ops.len() > 0 {
        lemma_trace_entries(s, ops.drop_last(), label);
    }
}

/// Once the quitting flag is set it never resets, whatever follows.
pub proof fn lemma_quitting_monotone(s: RegistryModel, ops: Seq<RegistryOp>)
    requires
        s.quitting,
    ensures
        apply_ops(s, ops).quitting,
    decreases ops.len(),
{
    if ops.len() > 0 {
        lemma_quitting_monotone(s, ops.drop_last());
    }
}

/// Write suppression: after a quit, every later operation runs with
/// the quitting flag set, so by `Registry::unregister`'s contract a
/// later unregistration performs no session write and the persisted
/// session file is left as the quit sequence wrote it.
pub proof fn lemma_no_write_after_quit(s: RegistryModel, ops: Seq<RegistryOp>, j: int, i: int)
    requires
        0 <= j < i <= ops.len(),
        ops[j] is Quit,
    ensures
        apply_ops(s, ops.take(i)).quitting,
    decreases i,
{
    assert(ops.take(i).drop_last() =~= ops.take(i - 1));
    assert(ops.take(i).last() == ops[i - 1]);
    if i > j + 1 {
        lemma_no_write_after_quit(s, ops, j, i - 1);
    }
}

/// Unregistering a label with no entry leaves the map unchanged; the
/// snapshot write still happens exactly when the registry is not
/// quitting.
pub proof fn lemma_unregister_absent(s: RegistryModel, label: Seq<char>)
    requires
        !s.map.contains_key(label),
    ensures
        apply_op(s, RegistryOp::Unregister { label }).map =~= s.map,
        apply_op(s, RegistryOp::Unregister { label }).quitting == s.quitting,
{
}

} // verus!
