//! Dialogue topics and their ordered info sequences.
//!
//! A topic's infos form an ordered sequence; the engine expects each info's
//! `prev_id` / `next_id` to chain the sequence as a doubly-linked order.
//! Inserting keeps the order consistent with the incoming record's `prev_id`;
//! `repair_links` rewrites the chain to match the sequence order, leaving the
//! front `prev_id` and the back `next_id` untouched (they may anchor the
//! chain to records outside this file).

use vstd::prelude::*;

use crate::ids::{bytes_eq, dup_bytes};
use crate::lookup::{first_match, lemma_first_match};

verus! {

/// One info record of a dialogue topic.
#[derive(Debug, PartialEq, Eq)]
pub struct InfoRecord {
    pub id: Vec<u8>,
    pub prev_id: Vec<u8>,
    pub next_id: Vec<u8>,
    pub deleted: bool,
    pub ignored: bool,
    /// Handle to the rest of the decoded record (text, conditions, speaker).
    pub payload: usize,
}

/// The kind of a dialogue topic; journals must be emitted first.
#[derive(Debug, PartialEq, Eq, Clone, Copy)]
pub enum DialogueKind {
    Journal,
    Topic,
    Voice,
    Greeting,
    Persuasion,
}

/// The dialogue record that heads a topic.
#[derive(Debug, PartialEq, Eq)]
pub struct DialogueRecord {
    pub id: Vec<u8>,
    pub kind: DialogueKind,
    pub deleted: bool,
    pub ignored: bool,
    pub payload: usize,
}

/// A topic with its ordered info sequence.
pub struct DialogueGroup {
    pub dialogue: DialogueRecord,
    pub infos: Vec<InfoRecord>,
}

/// The index of the last info whose id equals `id` exactly, or -1.
pub open spec fn find_last_spec(s: Seq<InfoRecord>, id: Seq<u8>) -> int
    decreases s.len(),
{
    if s.len() == 0 {
        -1
    } else if s[s.len() - 1].id@ == id {
        s.len() - 1
    } else {
        find_last_spec(s.drop_last(), id)
    }
}

/// `find_last_spec` returns -1 when the id is absent, else the last index
/// carrying it.
pub proof fn lemma_find_last(s: Seq<InfoRecord>, id: Seq<u8>)
    ensures
        -1 <= find_last_spec(s, id) < s.len(),
        find_last_spec(s, id) == -1 ==> forall|j: int|
            0 <= j < s.len() ==> (#[trigger] s[j]).id@ != id,
        find_last_spec(s, id) >= 0 ==> {
            &&& find_last_spec(s, id) < s.len()
            &&& s[find_last_spec(s, id)].id@ == id
            &&& forall|j: int|
                find_last_spec(s, id) < j < s.len() ==> (#[trigger] s[j]).id@ != id
        },
    decreases s.len(),
{
    if s.len() > 0 {
        if s[s.len() - 1].id@ != id {
            lemma_find_last(s.drop_last(), id);
            assert forall|j: int| 0 <= j < s.len() - 1 implies s.drop_last()[j] == s[j] by {}
        }
    }
}

/// Where a fresh info lands when no info with its id is present: at the
/// front when its `prev_id` is empty, after the last info carrying its
/// `prev_id` when one exists, at the back otherwise.
pub open spec fn place_info(s: Seq<InfoRecord>, info: InfoRecord) -> Seq<InfoRecord> {
    if info.prev_id@.len() == 0 {
        s.insert(0, info)
    } else {
        let j = find_last_spec(s, info.prev_id@);
        if j >= 0 {
            s.insert(j + 1, info)
        } else {
            s.push(info)
        }
    }
}

/// The result of inserting `info` into the sequence `s`: an info with the
/// same id and the same `prev_id` is replaced in place; one with the same id
/// but a different `prev_id` is removed and the record re-placed; otherwise
/// the record is placed fresh.
pub open spec fn insert_info_spec(s: Seq<InfoRecord>, info: InfoRecord) -> Seq<InfoRecord> {
    let i = find_last_spec(s, info.id@);
    if i >= 0 {
        if s[i].prev_id@ == info.prev_id@ {
            s.update(i, info)
        } else {
            place_info(s.remove(i), info)
        }
    } else {
        place_info(s, info)
    }
}

/// `r` is `m` with the chain links rewritten to the sequence order: each
/// info keeps its id, flags and payload; every info after the first points
/// back at its predecessor and every info before the last points forward at
/// its successor; the front `prev_id` and the back `next_id` are kept.
pub open spec fn links_repaired(m: Seq<InfoRecord>, r: Seq<InfoRecord>) -> bool {
    &&& r.len() == m.len()
    &&& forall|i: int|
        0 <= i < m.len() ==> {
            let n = #[trigger] r[i];
            let o = m[i];
            n.id@ == o.id@ && n.deleted == o.deleted && n.ignored == o.ignored && n.payload
                == o.payload
        }
    &&& forall|i: int| 1 <= i < m.len() ==> (#[trigger] r[i]).prev_id@ == m[i - 1].id@
    &&& m.len() > 0 ==> r[0].prev_id@ == m[0].prev_id@
    &&& forall|i: int| 0 <= i < m.len() - 1 ==> (#[trigger] r[i]).next_id@ == m[i + 1].id@
    &&& m.len() > 0 ==> r[m.len() - 1].next_id@ == m[m.len() - 1].next_id@
}

/// Adjacent infos are chained: each info's `next_id` names its successor and
/// each successor's `prev_id` names its predecessor.
pub open spec fn chain_well_formed(s: Seq<InfoRecord>) -> bool {
    forall|i: int|
        1 <= i < s.len() ==> (#[trigger] s[i]).prev_id@ == s[i - 1].id@ && s[i - 1].next_id@
            == s[i].id@
}

impl DialogueGroup {
    /// The index of the last info whose id equals `id` exactly.
    ///
    /// The search runs from the back: most inserts name a recently added
    /// info as their predecessor.
    fn find(&self, id: &Vec<u8>) -> (r: Option<usize>)
        ensures
            r matches Some(i) ==> i == find_last_spec(self.infos@, id@),
            r is None ==> find_last_spec(self.infos@, id@) == -1,
    {
        let mut i: usize = self.infos.len();
        while i > 0
            invariant
                i <= self.infos@.len(),
                forall|j: int| i <= j < self.infos@.len() ==> (#[trigger] self.infos@[j].id@) != id@,
            decreases i,
        {
            i = i - 1;
            if bytes_eq(&self.infos[i].id, id) {
                proof {
                    lemma_find_last(self.infos@, id@);
                    let f = find_last_spec(self.infos@, id@);
                    if f > i {
                        assert(self.infos@[f].id@ != id@);
                    }
                    if f < i {
                        assert(self.infos@[i as int].id@ != id@);
                    }
                }
                return Some(i);
            }
        }
        proof {
            lemma_find_last(self.infos@, id@);
            if find_last_spec(self.infos@, id@) >= 0 {
                assert(self.infos@[find_last_spec(self.infos@, id@)].id@ == id@);
            }
        }
        None
    }

    /// Inserts `info`, replacing any info with the same id and keeping the
    /// order consistent with the record's `prev_id` (see `insert_info_spec`).
    pub fn insert_info(&mut self, info: InfoRecord)
        ensures
            final (self).infos@ == insert_info_spec(old(self).infos@, info),
            final (self).dialogue == old(self).dialogue,
    {
        let ghost s0 = self.infos@;
        proof {
            lemma_find_last(s0, info.id@);
        }
        if let Some(i) = self.find(&info.id) {
            if bytes_eq(&self.infos[i].prev_id, &info.prev_id) {
                self.infos.set(i, info);
                return ;
            }
            self.infos.remove(i);
        }
        let ghost s1 = self.infos@;

        if info.prev_id.len() == 0 {
            self.infos.insert(0, info);
            return ;
        }

        proof {
            lemma_find_last(s1, info.prev_id@);
        }
        let n = self.infos.len();
        if let Some(j) = self.find(&info.prev_id) {
            assert(j < n);
            self.infos.insert(j + 1, info);
            return ;
        }

        self.infos.push(info);
    }

    /// Rewrites the `prev_id` / `next_id` links so they chain the sequence
    /// in order. The front info's `prev_id` and the back info's `next_id`
    /// are left as they are.
    pub fn repair_links(&mut self)
        ensures
            links_repaired(old(self).infos@, final (self).infos@),
            final (self).dialogue == old(self).dialogue,
            chain_well_formed(final (self).infos@),
    {
        let ghost s0 = self.infos@;
        let ghost dlg0 = self.dialogue;
        let len = self.infos.len();
        if len < 2 {
            return ;
        }
        let mut i: usize = 1;
        while i < len
            invariant
                1 <= i <= len,
                self.dialogue == dlg0,
                len == self.infos@.len(),
                len == s0.len(),
                forall|k: int|
                    0 <= k < len ==> {
                        let n = #[trigger] self.infos@[k];
                        let o = s0[k];
                        n.id@ == o.id@ && n.deleted == o.deleted && n.ignored == o.ignored
                            && n.payload == o.payload
                    },
                forall|k: int|
                    1 <= k < i ==> (#[trigger] self.infos@[k]).prev_id@ == s0[k - 1].id@,
                forall|k: int| i <= k < len ==> (#[trigger] self.infos@[k]).prev_id@ == s0[k].prev_id@,
                self.infos@[0].prev_id@ == s0[0].prev_id@,
                forall|k: int| 0 <= k < i - 1 ==> (#[trigger] self.infos@[k]).next_id@ == s0[k + 1].id@,
                forall|k: int|
                    i - 1 <= k < len ==> (#[trigger] self.infos@[k]).next_id@ == s0[k].next_id@,
            decreases len - i,
        {
            if !bytes_eq(&self.infos[i - 1].next_id, &self.infos[i].id) {
                let nid = dup_bytes(&self.infos[i].id);
                let prev = &self.infos[i - 1];
                let updated = InfoRecord {
                    id: dup_bytes(&prev.id),
                    prev_id: dup_bytes(&prev.prev_id),
                    next_id: nid,
                    deleted: prev.deleted,
                    ignored: prev.ignored,
                    payload: prev.payload,
                };
                self.infos.set(i - 1, updated);
            }
            if !bytes_eq(&self.infos[i].prev_id, &self.infos[i - 1].id) {
                let pid = dup_bytes(&self.infos[i - 1].id);
                let curr = &self.infos[i];
                let updated = InfoRecord {
                    id: dup_bytes(&curr.id),
                    prev_id: pid,
                    next_id: dup_bytes(&curr.next_id),
                    deleted: curr.deleted,
                    ignored: curr.ignored,
                    payload: curr.payload,
                };
                self.infos.set(i, updated);
            }
            i = i + 1;
        }
    }
}

} // verus!



verus! {

/// A topic group keyed by its lowercased topic id.
pub struct DialogueEntry {
    pub key: Vec<u8>,
    pub group: DialogueGroup,
}

/// The dialogue bucket of a plugin, keyed by lowercased topic id.
pub struct Dialogues {
    pub entries: Vec<DialogueEntry>,
}

/// The index of the topic with the given lowercased id, or -1.
pub open spec fn find_dialogue_spec(s: Seq<DialogueEntry>, key: Seq<u8>) -> int {
    first_match(s, |e: DialogueEntry| e.key@ == key)
}

/// Topic keys are unique.
pub open spec fn dialogues_wf(s: Seq<DialogueEntry>) -> bool {
    forall|i: int, j: int|
        0 <= i < j < s.len() ==> (#[trigger] s[i]).key@ != (#[trigger] s[j]).key@
}

impl Dialogues {
    /// An empty bucket.
    pub fn new() -> (r: Self)
        ensures
            r.entries@.len() == 0,
    {
        Dialogues { entries: Vec::new() }
    }

    /// The index of the topic with the given lowercased id.
    pub fn find(&self, key: &Vec<u8>) -> (r: Option<usize>)
        ensures
            r matches Some(i) ==> i == find_dialogue_spec(self.entries@, key@),
            r is None ==> find_dialogue_spec(self.entries@, key@) == -1,
    {
        let ghost pred = |e: DialogueEntry| e.key@ == key@;
        proof {
            lemma_first_match(self.entries@, pred);
        }
        let mut i: usize = 0;
        while i < self.entries.len()
            invariant
                i <= self.entries@.len(),
                pred == (|e: DialogueEntry| e.key@ == key@),
                forall|j: int| 0 <= j < i ==> !pred(#[trigger] self.entries@[j]),
            decreases self.entries@.len() - i,
        {
            if bytes_eq(&self.entries[i].key, key) {
                proof {
                    lemma_first_match(self.entries@, pred);
                    let f = first_match(self.entries@, pred);
                    assert(pred(self.entries@[i as int]));
                    if f > i {
                        assert(!pred(self.entries@[i as int]));
                    }
                    if 0 <= f < i {
                        assert(!pred(self.entries@[f]));
                    }
                    if f == -1 {
                        assert(!pred(self.entries@[i as int]));
                    }
                }
                return Some(i);
            }
            i = i + 1;
        }
        proof {
            lemma_first_match(self.entries@, pred);
            let f = first_match(self.entries@, pred);
            if f >= 0 {
                assert(pred(self.entries@[f]));
            }
        }
        None
    }

    /// Installs `dialogue` as the topic record under `key`: an existing
    /// group keeps its infos, an absent one is created empty. Returns the
    /// group's index.
    pub fn upsert_dialogue_record(&mut self, key: &Vec<u8>, dialogue: DialogueRecord) -> (r: usize)
        ensures
            r < final (self).entries@.len(),
            final (self).entries@[r as int].key@ == key@,
            final (self).entries@[r as int].group.dialogue == dialogue,
            if find_dialogue_spec(old(self).entries@, key@) >= 0 {
                let i = find_dialogue_spec(old(self).entries@, key@);
                r == i && final (self).entries@ == old(self).entries@.update(
                    i,
                    DialogueEntry {
                        key: old(self).entries@[i].key,
                        group: DialogueGroup {
                            dialogue,
                            infos: old(self).entries@[i].group.infos,
                        },
                    },
                )
            } else {
                r == old(self).entries@.len() && final (self).entries@ == old(
                    self,
                ).entries@.push(
                    DialogueEntry {
                        key: final (self).entries@[r as int].key,
                        group: DialogueGroup { dialogue, infos: final (self).entries@[r as int].group.infos },
                    },
                ) && final (self).entries@[r as int].group.infos@.len() == 0
            },
            dialogues_wf(old(self).entries@) ==> dialogues_wf(final (self).entries@),
    {
        let ghost s0 = self.entries@;
        let ghost pred = |e: DialogueEntry| e.key@ == key@;
        match self.find(key) {
            Some(i) => {
                proof {
                    lemma_first_match(s0, pred);
                }
                let mut entry = self.entries.remove(i);
                entry.group.dialogue = dialogue;
                self.entries.insert(i, entry);
                proof {
                    assert(self.entries@ =~= s0.update(
                        i as int,
                        DialogueEntry {
                            key: s0[i as int].key,
                            group: DialogueGroup {
                                dialogue: self.entries@[i as int].group.dialogue,
                                infos: s0[i as int].group.infos,
                            },
                        },
                    ));
                }
                i
            },
            None => {
                let entry = DialogueEntry {
                    key: dup_bytes(key),
                    group: DialogueGroup { dialogue, infos: Vec::new() },
                };
                self.entries.push(entry);
                proof {
                    lemma_first_match(s0, pred);
                    assert forall|i: int, j: int|
                        0 <= i < j < self.entries@.len() && dialogues_wf(s0) implies (
                    #[trigger] self.entries@[i]).key@ != (#[trigger] self.entries@[j]).key@ by {
                        if j == self.entries@.len() - 1 {
                            assert(!pred(s0[i]));
                        }
                    }
                }
                self.entries.len() - 1
            },
        }
    }
}

} // verus!

verus! {

impl Default for DialogueGroup {
    /// An empty topic: a blank topic record and no infos.
    fn default() -> (r: Self)
        ensures
            r.dialogue.id@.len() == 0,
            r.dialogue.kind == DialogueKind::Topic,
            !r.dialogue.deleted,
            !r.dialogue.ignored,
            r.dialogue.payload == 0,
            r.infos@.len() == 0,
    {
        DialogueGroup {
            dialogue: DialogueRecord {
                id: Vec::new(),
                kind: DialogueKind::Topic,
                deleted: false,
                ignored: false,
                payload: 0,
            },
            infos: Vec::new(),
        }
    }
}

} // verus!

verus! {

/// The emit rank of a topic kind: journals must come strictly first.
pub open spec fn kind_rank(k: DialogueKind) -> int {
    match k {
        DialogueKind::Journal => 0,
        DialogueKind::Topic => 1,
        DialogueKind::Voice => 2,
        DialogueKind::Greeting => 3,
        DialogueKind::Persuasion => 4,
    }
}

/// Byte-wise lexicographic order.
pub open spec fn lex_le(a: Seq<u8>, b: Seq<u8>) -> bool
    decreases a.len(),
{
    if a.len() == 0 {
        true
    } else if b.len() == 0 {
        false
    } else if a[0] < b[0] {
        true
    } else if a[0] > b[0] {
        false
    } else {
        lex_le(a.drop_first(), b.drop_first())
    }
}

/// Lexicographic order is total.
pub proof fn lemma_lex_le_total(a: Seq<u8>, b: Seq<u8>)
    ensures
        lex_le(a, b) || lex_le(b, a),
    decreases a.len(),
{
    if a.len() > 0 && b.len() > 0 && a[0] == b[0] {
        lemma_lex_le_total(a.drop_first(), b.drop_first());
    }
}

/// Equal prefixes do not decide the order.
pub proof fn lemma_lex_le_skip(a: Seq<u8>, b: Seq<u8>, i: int)
    requires
        0 <= i <= a.len(),
        i <= b.len(),
        forall|j: int| 0 <= j < i ==> a[j] == b[j],
    ensures
        lex_le(a, b) == lex_le(a.skip(i), b.skip(i)),
    decreases i,
{
    if i > 0 {
        assert(a.len() > 0 && b.len() > 0);
        assert(a[0] == b[0]);
        assert forall|j: int| 0 <= j < i - 1 implies a.drop_first()[j] == b.drop_first()[j] by {
            assert(a.drop_first()[j] == a[j + 1]);
            assert(b.drop_first()[j] == b[j + 1]);
        }
        lemma_lex_le_skip(a.drop_first(), b.drop_first(), i - 1);
        assert(a.drop_first().skip(i - 1) =~= a.skip(i));
        assert(b.drop_first().skip(i - 1) =~= b.skip(i));
    } else {
        assert(a.skip(0) =~= a);
        assert(b.skip(0) =~= b);
    }
}

/// The emit order of two topics: by kind rank, ties by id bytes.
pub open spec fn output_le(a: DialogueEntry, b: DialogueEntry) -> bool {
    ||| kind_rank(a.group.dialogue.kind) < kind_rank(b.group.dialogue.kind)
    ||| (kind_rank(a.group.dialogue.kind) == kind_rank(b.group.dialogue.kind) && lex_le(
        a.group.dialogue.id@,
        b.group.dialogue.id@,
    ))
}

/// The emit order is total.
pub proof fn lemma_output_le_total(a: DialogueEntry, b: DialogueEntry)
    ensures
        output_le(a, b) || output_le(b, a),
{
    lemma_lex_le_total(a.group.dialogue.id@, b.group.dialogue.id@);
}

/// Compares two byte strings lexicographically.
pub fn lex_le_bytes(a: &Vec<u8>, b: &Vec<u8>) -> (r: bool)
    ensures
        r == lex_le(a@, b@),
{
    let mut i: usize = 0;
    let n = if a.len() <= b.len() {
        a.len()
    } else {
        b.len()
    };
    while i < n
        invariant
            i <= n,
            n == if a@.len() <= b@.len() {
                a@.len() as int
            } else {
                b@.len() as int
            },
            forall|j: int| 0 <= j < i ==> a@[j] == b@[j],
        decreases n - i,
    {
        if a[i] < b[i] {
            proof {
                lemma_lex_le_skip(a@, b@, i as int);
                assert(lex_le(a@.skip(i as int), b@.skip(i as int)));
            }
            return true;
        }
        if a[i] > b[i] {
            proof {
                lemma_lex_le_skip(a@, b@, i as int);
                assert(!lex_le(a@.skip(i as int), b@.skip(i as int)));
            }
            return false;
        }
        i = i + 1;
    }
    proof {
        lemma_lex_le_skip(a@, b@, i as int);
        if a@.len() <= b@.len() {
            assert(a@.skip(i as int).len() == 0);
        } else {
            assert(a@.skip(i as int).len() > 0 && b@.skip(i as int).len() == 0);
        }
    }
    a.len() <= b.len()
}

/// Compares two topics in emit order.
pub fn output_le_entries(a: &DialogueEntry, b: &DialogueEntry) -> (r: bool)
    ensures
        r == output_le(*a, *b),
{
    let ra: u8 = match a.group.dialogue.kind {
        DialogueKind::Journal => 0,
        DialogueKind::Topic => 1,
        DialogueKind::Voice => 2,
        DialogueKind::Greeting => 3,
        DialogueKind::Persuasion => 4,
    };
    let rb: u8 = match b.group.dialogue.kind {
        DialogueKind::Journal => 0,
        DialogueKind::Topic => 1,
        DialogueKind::Voice => 2,
        DialogueKind::Greeting => 3,
        DialogueKind::Persuasion => 4,
    };
    if ra < rb {
        true
    } else if ra > rb {
        false
    } else {
        lex_le_bytes(&a.group.dialogue.id, &b.group.dialogue.id)
    }
}

impl Dialogues {
    /// The topic groups in emit order: journals strictly first, then the
    /// other kinds by rank, ties broken by topic id. The result holds
    /// exactly the bucket's entries, rearranged.
    pub fn into_output_order(self) -> (r: (Vec<DialogueEntry>, Ghost<Seq<int>>))
        ensures
            forall|i: int| 1 <= i < r.0@.len() ==> output_le(r.0@[i - 1], #[trigger] r.0@[i]),
            r.1@.len() == r.0@.len(),
            r.0@.len() == self.entries@.len(),
            forall|k: int| 0 <= k < r.1@.len() ==> 0 <= #[trigger] r.1@[k] < self.entries@.len(),
            forall|k: int| 0 <= k < r.1@.len() ==> #[trigger] r.0@[k] == self.entries@[r.1@[k]],
            forall|k1: int, k2: int|
                0 <= k1 < k2 < r.1@.len() ==> #[trigger] r.1@[k1] != #[trigger] r.1@[k2],
    {
        let ghost s0 = self.entries@;
        let mut src = self.entries;
        let mut out: Vec<DialogueEntry> = Vec::new();
        let ghost mut w: Seq<int> = Seq::empty();
        let total = src.len();
        let mut i: usize = 0;
        while src.len() > 0
            invariant
                s0.len() == total,
                i <= s0.len(),
                src@ =~= s0.skip(i as int),
                out@.len() == i,
                w.len() == i,
                forall|q: int| 1 <= q < out@.len() ==> output_le(out@[q - 1], #[trigger] out@[q]),
                forall|k: int| 0 <= k < w.len() ==> 0 <= #[trigger] w[k] < i,
                forall|k: int| 0 <= k < w.len() ==> #[trigger] out@[k] == s0[w[k]],
                forall|k1: int, k2: int|
                    0 <= k1 < k2 < w.len() ==> #[trigger] w[k1] != #[trigger] w[k2],
            decreases src@.len(),
        {
            let x = src.remove(0);
            let ghost x_g = x;
            proof {
                assert(x == s0[i as int]);
                assert(s0.skip(i as int).drop_first() =~= s0.skip(i as int + 1));
            }
            // Scan from the back for the first kept entry that may precede x.
            let mut p: usize = out.len();
            while p > 0 && !output_le_entries(&out[p - 1], &x)
                invariant
                    p <= out@.len(),
                    x == x_g,
                    forall|q: int| p <= q < out@.len() ==> !output_le(#[trigger] out@[q], x_g),
                decreases p,
            {
                p = p - 1;
            }
            let ghost pre = out@;
            let ghost w_pre = w;
            out.insert(p, x);
            proof {
                w = w.insert(p as int, i as int);
                lemma_output_le_total(x_g, x_g);
                assert forall|q: int| 1 <= q < out@.len() implies output_le(
                    out@[q - 1],
                    #[trigger] out@[q],
                ) by {
                    if q < p {
                        assert(out@[q - 1] == pre[q - 1] && out@[q] == pre[q]);
                    } else if q == p {
                        assert(out@[q - 1] == pre[q - 1] && out@[q] == x_g);
                    } else if q == p + 1 {
                        assert(out@[q - 1] == x_g && out@[q] == pre[p as int]);
                        assert(!output_le(pre[p as int], x_g));
                        lemma_output_le_total(x_g, pre[p as int]);
                    } else {
                        assert(out@[q - 1] == pre[q - 2] && out@[q] == pre[q - 1]);
                    }
                }
                assert forall|k: int| 0 <= k < w.len() implies #[trigger] out@[k] == s0[w[k]] by {
                    if k < p {
                        assert(out@[k] == pre[k] && w[k] == w_pre[k]);
                    } else if k == p {
                        assert(out@[k] == x_g && w[k] == i);
                    } else {
                        assert(out@[k] == pre[k - 1] && w[k] == w_pre[k - 1]);
                    }
                }
                assert forall|k1: int, k2: int| 0 <= k1 < k2 < w.len() implies #[trigger] w[k1]
                    != #[trigger] w[k2] by {
                    let a1 = if k1 < p {
                        w_pre[k1]
                    } else if k1 == p {
                        i as int
                    } else {
                        w_pre[k1 - 1]
                    };
                    let a2 = if k2 < p {
                        w_pre[k2]
                    } else if k2 == p {
                        i as int
                    } else {
                        w_pre[k2 - 1]
                    };
                    assert(w[k1] == a1 && w[k2] == a2);
                }
            }
            i = i + 1;
        }
        proof {
            assert(s0.skip(i as int).len() == 0);
        }
        (out, Ghost(w))
    }
}

} // verus!
