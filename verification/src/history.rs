//! Undo/redo history backed by a `libro` audit chain.
//!
//! Every editor action is recorded as an entry of a tamper-evident, append-
//! only audit chain; a cursor marks how many of them are applied, and undo
//! and redo move it.

use libro::{AuditChain, AuditEntry, EventSeverity};
use serde_json::Value;
use vstd::prelude::*;

verus! {

/// An append-only, hash-linked audit chain (`libro::AuditChain`).
#[verifier::external_type_specification]
#[verifier::external_body]
pub struct ExAuditChain(AuditChain);

/// One entry of an audit chain (`libro::AuditEntry`).
#[verifier::external_type_specification]
#[verifier::external_body]
pub struct ExAuditEntry(AuditEntry);

/// A JSON value (`serde_json::Value`).
#[verifier::external_type_specification]
#[verifier::external_body]
pub struct ExValue(Value);

/// `serde_json::Value::clone`, called by the derived `Clone` of [`Action`].
/// Nothing is stated of the copy.
pub assume_specification[ <Value as Clone>::clone ](v: &Value) -> Value;

/// What a chain holds: the source and the action of each entry, oldest first.
pub uninterp spec fn chain_records(c: AuditChain) -> Seq<(Seq<char>, Seq<char>)>;

/// The source and the action an entry records (what `AuditEntry::source`
/// and `AuditEntry::action` return).
pub uninterp spec fn entry_record(e: AuditEntry) -> (Seq<char>, Seq<char>);

/// The details of each entry of a chain, oldest first (the JSON payload
/// each was appended with).
pub uninterp spec fn chain_details(c: AuditChain) -> Seq<Value>;

/// The details an entry holds (what `AuditEntry::details` returns).
pub uninterp spec fn entry_details(e: AuditEntry) -> Value;

/// The capacity a chain was made with (`None`: unlimited, never rotates).
pub uninterp spec fn chain_capacity(c: AuditChain) -> Option<usize>;

/// Whether `AuditChain::verify` finds every entry's hash and link intact.
pub uninterp spec fn chain_verified(c: AuditChain) -> bool;

/// `AuditChain::new`: an empty chain without a capacity limit. An empty
/// chain verifies.
#[verifier::external_body]
fn chain_new() -> (c: AuditChain)
    ensures
        chain_records(c) == Seq::<(Seq<char>, Seq<char>)>::empty(),
        chain_details(c) == Seq::<Value>::empty(),
        chain_capacity(c) == None::<usize>,
        chain_verified(c),
{
    AuditChain::new()
}

/// `AuditChain::len`: the number of entries.
#[verifier::external_body]
fn chain_len(c: &AuditChain) -> (n: usize)
    ensures
        n == chain_records(*c).len(),
{
    c.len()
}

/// `AuditChain::append` with `Info` severity on a chain without a capacity
/// limit: one entry with this source, action and details is added at the
/// end (a chain with a limit would rotate instead, so it is ruled out),
/// and the entries already there stay as they were. The new
/// entry is hashed over its content and linked to the previous head, so a
/// chain that verified still verifies.
#[verifier::external_body]
fn chain_append(c: &mut AuditChain, source: &str, action: &str, details: Value)
    requires
        chain_capacity(*old(c)) is None,
    ensures
        chain_records(*final(c)) == chain_records(*old(c)).push((source@, action@)),
        chain_details(*final(c)) == chain_details(*old(c)).push(details),
        chain_capacity(*final(c)) == None::<usize>,
        chain_verified(*old(c)) ==> chain_verified(*final(c)),
{
    c.append(EventSeverity::Info, source, action, details);
}

/// `AuditChain::entries().get(i)`: the `i`-th entry, present exactly when
/// `i` is below the length. Of the entry, its source, action and details
/// are modelled (hashes, ids and timestamps are not).
#[verifier::external_body]
fn chain_get(c: &AuditChain, i: usize) -> (e: Option<&AuditEntry>)
    ensures
        e is Some <==> i < chain_records(*c).len(),
        e matches Some(x) ==> entry_record(*x) == chain_records(*c)[i as int] && entry_details(*x)
            == chain_details(*c)[i as int],
{
    c.entries().get(i)
}

/// `AuditChain::entries`: all entries, one per record, in order.
#[verifier::external_body]
fn chain_entries(c: &AuditChain) -> (s: &[AuditEntry])
    ensures
        s@.len() == chain_records(*c).len(),
        forall|k: int|
            0 <= k < s@.len() ==> entry_record(#[trigger] s@[k]) == chain_records(*c)[k] && entry_details(s@[k])
                == chain_details(*c)[k],
{
    c.entries()
}

/// `AuditChain::page`: `offset` entries skipped, at most `limit` returned.
/// The end of the page is computed as `min(offset, len) + limit`, which must
/// not overflow.
#[verifier::external_body]
fn chain_page(c: &AuditChain, offset: usize, limit: usize) -> (s: &[AuditEntry])
    requires
        page_start(offset, chain_records(*c).len()) + limit <= usize::MAX,
    ensures
        s@.len() == page_len(offset, limit, chain_records(*c).len()),
        forall|k: int|
            0 <= k < s@.len() ==> entry_record(#[trigger] s@[k]) == chain_records(*c)[page_start(
                offset,
                chain_records(*c).len(),
            ) + k] && entry_details(s@[k]) == chain_details(*c)[page_start(offset, chain_records(*c).len()) + k],
{
    c.page(offset, limit)
}

/// `AuditChain::verify`: whether every entry's hash and link check out
/// (the hashes themselves are not modelled).
#[verifier::external_body]
fn chain_verify(c: &AuditChain) -> (b: bool)
    ensures
        b == chain_verified(*c),
{
    c.verify().is_ok()
}

/// Where a page starting at `offset` begins in a chain of `len` entries.
pub open spec fn page_start(offset: usize, len: nat) -> nat {
    if offset < len { offset as nat } else { len }
}

/// How many entries a page of `limit` starting at `offset` holds.
pub open spec fn page_len(offset: usize, limit: usize, len: nat) -> nat {
    let start = page_start(offset, len);
    if start + limit < len { limit as nat } else { (len - start) as nat }
}

/// An editor action recorded in the history.
#[derive(Debug, Clone)]
pub struct Action {
    /// What kind of action (e.g. "set_position", "add_layer", "set_gain").
    pub kind: String,
    /// JSON payload with the action details (before/after state for reversal).
    pub details: Value,
}

impl Action {
    /// Create a new action.
    pub fn new(kind: &str, details: Value) -> (a: Self)
        ensures
            a.kind@ == kind@,
            a.details == details,
    {
        Action { kind: kind.to_owned(), details }
    }
}

/// Undo/redo history for any editor.
pub struct History {
    chain: AuditChain,
    cursor: usize,
}

impl History {
    /// The recorded actions as (source, kind), oldest first.
    pub closed spec fn spec_records(&self) -> Seq<(Seq<char>, Seq<char>)> {
        chain_records(self.chain)
    }

    /// The details recorded with each action, oldest first.
    pub closed spec fn spec_details(&self) -> Seq<Value> {
        chain_details(self.chain)
    }

    /// How many recorded actions are applied.
    pub closed spec fn spec_cursor(&self) -> nat {
        self.cursor as nat
    }

    /// Whether the chain behind the history passes verification.
    pub closed spec fn spec_verified(&self) -> bool {
        chain_verified(self.chain)
    }

    /// The cursor lies within the recorded actions, each action has its
    /// details, the chain never rotates entries away, and it verifies.
    pub closed spec fn wf(&self) -> bool {
        &&& self.cursor <= chain_records(self.chain).len()
        &&& chain_details(self.chain).len() == chain_records(self.chain).len()
        &&& chain_capacity(self.chain) is None
        &&& chain_verified(self.chain)
    }

    /// `self` is `prev` after `undo`: the cursor moved back one action
    /// (`moved`) or, at the start, stayed; the records are unchanged.
    pub open spec fn stepped_back(&self, prev: &Self, moved: bool) -> bool {
        &&& self.spec_records() == prev.spec_records()
        &&& self.spec_details() == prev.spec_details()
        &&& moved == (prev.spec_cursor() > 0)
        &&& if moved {
            self.spec_cursor() == prev.spec_cursor() - 1
        } else {
            self.spec_cursor() == prev.spec_cursor()
        }
    }

    /// `self` is `prev` after `redo`: the cursor moved forward one action
    /// (`moved`) or, at the end, stayed; the records are unchanged.
    pub open spec fn stepped_forward(&self, prev: &Self, moved: bool) -> bool {
        &&& self.spec_records() == prev.spec_records()
        &&& self.spec_details() == prev.spec_details()
        &&& moved == (prev.spec_cursor() < prev.spec_records().len())
        &&& if moved {
            self.spec_cursor() == prev.spec_cursor() + 1
        } else {
            self.spec_cursor() == prev.spec_cursor()
        }
    }

    /// Create a new empty history.
    pub fn new() -> (h: Self)
        ensures
            h.wf(),
            h.spec_records() == Seq::<(Seq<char>, Seq<char>)>::empty(),
            h.spec_details() == Seq::<Value>::empty(),
            h.spec_cursor() == 0,
    {
        History { chain: chain_new(), cursor: 0 }
    }

    /// Record a new action from `source`. It becomes the last applied
    /// action; the recorded ones after the cursor stay in the chain (it is
    /// append-only) but can no longer be redone.
    pub fn record(&mut self, source: &str, action: Action)
        requires
            old(self).wf(),
        ensures
            final(self).wf(),
            final(self).spec_records() == old(self).spec_records().push((source@, action.kind@)),
            final(self).spec_details() == old(self).spec_details().push(action.details),
            final(self).spec_cursor() == final(self).spec_records().len(),
    {
        self.cursor = chain_len(&self.chain);
        chain_append(&mut self.chain, source, action.kind.as_str(), action.details);
        self.cursor = chain_len(&self.chain);
    }

    /// Whether there are actions that can be undone.
    pub fn can_undo(&self) -> (b: bool)
        ensures
            b == (self.spec_cursor() > 0),
    {
        self.cursor > 0
    }

    /// Whether there are actions that can be redone.
    pub fn can_redo(&self) -> (b: bool)
        ensures
            b == (self.spec_cursor() < self.spec_records().len()),
    {
        self.cursor < chain_len(&self.chain)
    }

    /// Move the cursor back one step and return the entry to undo; `None`
    /// (and no move) at the start.
    pub fn undo(&mut self) -> (e: Option<&AuditEntry>)
        requires
            old(self).wf(),
        ensures
            final(self).wf(),
            final(self).stepped_back(old(self), e is Some),
            e matches Some(x) ==> entry_record(*x) == final(self).spec_records()[final(self).spec_cursor() as int]
                && entry_details(*x) == final(self).spec_details()[final(self).spec_cursor() as int],
    {
        if self.cursor == 0 {
            return None;
        }
        self.cursor = self.cursor - 1;
        chain_get(&self.chain, self.cursor)
    }

    /// Move the cursor forward one step and return the entry to redo;
    /// `None` (and no move) at the end.
    pub fn redo(&mut self) -> (e: Option<&AuditEntry>)
        requires
            old(self).wf(),
        ensures
            final(self).wf(),
            final(self).stepped_forward(old(self), e is Some),
            e matches Some(x) ==> entry_record(*x) == old(self).spec_records()[old(self).spec_cursor() as int]
                && entry_details(*x) == old(self).spec_details()[old(self).spec_cursor() as int],
    {
        if self.cursor >= chain_len(&self.chain) {
            return None;
        }
        let position = self.cursor;
        self.cursor = self.cursor + 1;
        chain_get(&self.chain, position)
    }

    /// Number of recorded actions.
    pub fn len(&self) -> (n: usize)
        ensures
            n == self.spec_records().len(),
    {
        chain_len(&self.chain)
    }

    /// Whether nothing has been recorded.
    pub fn is_empty(&self) -> (b: bool)
        ensures
            b == (self.spec_records().len() == 0),
    {
        chain_len(&self.chain) == 0
    }

    /// Current cursor position (number of applied actions).
    pub fn cursor(&self) -> (n: usize)
        ensures
            n == self.spec_cursor(),
    {
        self.cursor
    }

    /// Verify the integrity of the entire history chain.
    pub fn verify(&self) -> (b: bool)
        ensures
            b == self.spec_verified(),
    {
        chain_verify(&self.chain)
    }

    /// All entries of the chain, one per recorded action, oldest first.
    pub fn entries(&self) -> (s: &[AuditEntry])
        ensures
            s@.len() == self.spec_records().len(),
            forall|k: int|
                0 <= k < s@.len() ==> entry_record(#[trigger] s@[k]) == self.spec_records()[k] && entry_details(s@[k])
                    == self.spec_details()[k],
    {
        chain_entries(&self.chain)
    }

    /// The entries up to the cursor (the applied history).
    pub fn applied_entries(&self) -> (s: &[AuditEntry])
        requires
            self.wf(),
        ensures
            s@.len() == self.spec_cursor(),
            forall|k: int|
                0 <= k < s@.len() ==> entry_record(#[trigger] s@[k]) == self.spec_records()[k] && entry_details(s@[k])
                    == self.spec_details()[k],
    {
        vstd::slice::slice_subrange(chain_entries(&self.chain), 0, self.cursor)
    }

    /// A page of entries for display: `offset` skipped, at most `limit`.
    pub fn page(&self, offset: usize, limit: usize) -> (s: &[AuditEntry])
        requires
            page_start(offset, self.spec_records().len()) + limit <= usize::MAX,
        ensures
            s@.len() == page_len(offset, limit, self.spec_records().len()),
            forall|k: int|
                0 <= k < s@.len() ==> entry_record(#[trigger] s@[k]) == self.spec_records()[page_start(
                    offset,
                    self.spec_records().len(),
                ) + k] && entry_details(s@[k]) == self.spec_details()[page_start(offset, self.spec_records().len())
                    + k],
    {
        chain_page(&self.chain, offset, limit)
    }
}

impl Default for History {
    fn default() -> (h: Self)
        ensures
            h.wf(),
            h.spec_records() == Seq::<(Seq<char>, Seq<char>)>::empty(),
            h.spec_details() == Seq::<Value>::empty(),
            h.spec_cursor() == 0,
    {
        Self::new()
    }
}

/// After recording, the new action can be undone and nothing can be redone.
pub proof fn lemma_record_ends_redo(h0: History, h1: History, source: Seq<char>, kind: Seq<char>)
    requires
        h1.spec_records() == h0.spec_records().push((source, kind)),
        h1.spec_cursor() == h1.spec_records().len(),
    ensures
        h1.spec_cursor() > 0,
        !(h1.spec_cursor() < h1.spec_records().len()),
        h1.spec_records().last() == (source, kind),
{
}

/// Undoing right after recording hands back what was recorded: the entry
/// at the new cursor has the recorded source, kind and details.
pub proof fn lemma_undo_after_record_returns_it(
    h0: History,
    h1: History,
    h2: History,
    source: Seq<char>,
    kind: Seq<char>,
    details: Value,
)
    requires
        h1.spec_records() == h0.spec_records().push((source, kind)),
        h1.spec_details() == h0.spec_details().push(details),
        h1.spec_cursor() == h1.spec_records().len(),
        h0.wf(),
        h2.stepped_back(&h1, true),
    ensures
        h2.spec_records()[h2.spec_cursor() as int] == (source, kind),
        h2.spec_details()[h2.spec_cursor() as int] == details,
{
}

/// An undo that moved the cursor, followed by a redo, returns the cursor to
/// where it was; the redo always moves.
pub proof fn lemma_undo_then_redo(h0: History, h1: History, h2: History, moved: bool)
    requires
        h0.wf(),
        h1.stepped_back(&h0, true),
        h2.stepped_forward(&h1, moved),
    ensures
        moved,
        h2.spec_cursor() == h0.spec_cursor(),
        h2.spec_records() == h0.spec_records(),
{
}

/// A redo that moved the cursor, followed by an undo, returns the cursor to
/// where it was; the undo always moves.
pub proof fn lemma_redo_then_undo(h0: History, h1: History, h2: History, moved: bool)
    requires
        h1.stepped_forward(&h0, true),
        h2.stepped_back(&h1, moved),
    ensures
        moved,
        h2.spec_cursor() == h0.spec_cursor(),
        h2.spec_records() == h0.spec_records(),
{
}

/// A history's audit chain always verifies: it is only ever built by
/// recording actions, each hashed and linked to the one before.
pub proof fn lemma_history_verifies(h: History)
    requires
        h.wf(),
    ensures
        h.spec_verified(),
{
}

/// The cursor never passes the number of recorded actions.
pub proof fn lemma_cursor_within_records(h: History)
    requires
        h.wf(),
    ensures
        h.spec_cursor() <= h.spec_records().len(),
{
}

} // verus!
