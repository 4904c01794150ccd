use vstd::prelude::*;
use crate::context::{
    edited_context, has_key, replayed, replayed_edits, replayed_entry, ContextModel, Replay,
    Valid8Context,
};
use crate::error::ContextError;
use crate::item::{duplicate_list, models, Item};
use crate::account::{edited_all, lemma_replay_deterministic, AccountModel};
use crate::context::{is_first, lemma_first_index};
use crate::overrides::{EditModel, Override, OverrideModel};

verus! {

/// Once an edit of an entry has failed, the edits behind it change nothing.
pub proof fn lemma_edits_stop(
    c: ContextModel,
    key: Seq<u8>,
    edits: Seq<EditModel>,
    program: bool,
    n: int,
)
    requires
        0 <= n <= edits.len(),
        replayed_edits(c, key, edits.take(n), program).error is Some,
    ensures
        replayed_edits(c, key, edits, program) == replayed_edits(c, key, edits.take(n), program),
    decreases edits.len(),
{
    if n == edits.len() {
        assert(edits.take(n) =~= edits);
    } else {
        assert(edits.drop_last().take(n) =~= edits.take(n));
        lemma_edits_stop(c, key, edits.drop_last(), program, n);
    }
}

/// Once an entry of the journal has failed, the entries behind it change
/// nothing.
pub proof fn lemma_replay_stops(c: ContextModel, journal: Seq<OverrideModel>, n: int)
    requires
        0 <= n <= journal.len(),
        replayed(c, journal.take(n)).error is Some,
    ensures
        replayed(c, journal) == replayed(c, journal.take(n)),
    decreases journal.len(),
{
    if n == journal.len() {
        assert(journal.take(n) =~= journal);
    } else {
        assert(journal.drop_last().take(n) =~= journal.take(n));
        lemma_replay_stops(c, journal.drop_last(), n);
    }
}

/// Whether the record at the place `i` is the only one of `list` with the
/// identifier `key`.
pub open spec fn only_at(list: Seq<AccountModel>, key: Seq<u8>, i: int) -> bool {
    &&& 0 <= i < list.len()
    &&& list[i].pubkey == key
    &&& forall|j: int| 0 <= j < list.len() && j != i ==> (#[trigger] list[j]).pubkey != key
}

/// Where the store holds the identifier once, replaying the edits of an
/// entry does to the store what the edits do to the record: it fails where
/// they fail, and else leaves the other records in their order, followed by
/// the record that the edits leave.
pub proof fn lemma_replayed_edits_record(
    c: ContextModel,
    key: Seq<u8>,
    edits: Seq<EditModel>,
    program: bool,
    i: int,
)
    requires
        only_at(c.accounts, key, i),
    ensures
        ({
            let replay = replayed_edits(c, key, edits, program);
            let record = edited_all(c.accounts[i], edits, program);
            &&& record is Ok ==> record->Ok_0.pubkey == key
            &&& record is Ok <==> replay.error is None
            &&& record is Err ==> replay.error == Some(record->Err_0)
            &&& record is Ok && edits.len() > 0 ==> replay.context.accounts == c.accounts.remove(
                i,
            ).push(record->Ok_0)
            &&& record is Ok && edits.len() == 0 ==> replay.context == c
        }),
    decreases edits.len(),
{
    if edits.len() > 0 {
        let init = edits.drop_last();
        let e = edits.last();
        lemma_replayed_edits_record(c, key, init, program, i);
        let prev = replayed_edits(c, key, init, program);
        let before = edited_all(c.accounts[i], init, program);
        if before is Ok {
            let others = c.accounts.remove(i);
            let at = if init.len() == 0 {
                i
            } else {
                others.len() as int
            };
            let list = prev.context.accounts;
            if init.len() > 0 {
                assert(list[at] == before->Ok_0);
                assert forall|j: int| 0 <= j < at implies (#[trigger] list[j]).pubkey != key by {
                    assert(list[j] == others[j]);
                    if j < i {
                        assert(others[j] == c.accounts[j]);
                    } else {
                        assert(others[j] == c.accounts[j + 1]);
                    }
                }
                assert(list.remove(at) =~= others);
            }
            assert(is_first(list, key, at));
            lemma_first_index(list, key, at);
            assert(list[at] == before->Ok_0);
        }
    }
}

/// Where the store holds the identifier once, replaying the edits of an
/// entry a second time leaves the records as the first replay left them:
/// only the journal grows.
pub proof fn lemma_replay_twice(
    c: ContextModel,
    key: Seq<u8>,
    edits: Seq<EditModel>,
    program: bool,
    i: int,
)
    requires
        only_at(c.accounts, key, i),
        replayed_edits(c, key, edits, program).error is None,
    ensures
        ({
            let first = replayed_edits(c, key, edits, program).context;
            let second = replayed_edits(first, key, edits, program);
            &&& second.error is None
            &&& second.context.accounts == first.accounts
            &&& second.context.programs == c.programs
        }),
{
    lemma_replayed_edits_record(c, key, edits, program, i);
    lemma_replay_keeps_programs(c, key, edits, program);
    if edits.len() > 0 {
        let others = c.accounts.remove(i);
        let record = edited_all(c.accounts[i], edits, program)->Ok_0;
        let first = replayed_edits(c, key, edits, program).context;
        let at = others.len() as int;
        assert(first.accounts[at] == record);
        assert forall|j: int| 0 <= j < first.accounts.len() && j != at implies (
        #[trigger] first.accounts[j]).pubkey != key by {
            assert(first.accounts[j] == others[j]);
            if j < i {
                assert(others[j] == c.accounts[j]);
            } else {
                assert(others[j] == c.accounts[j + 1]);
            }
        }
        assert(only_at(first.accounts, key, at));
        lemma_replay_deterministic(c.accounts[i], edits, program);
        lemma_replayed_edits_record(first, key, edits, program, at);
        lemma_replay_keeps_programs(first, key, edits, program);
        assert(first.accounts.remove(at) =~= others);
    }
}

/// Replaying the edits of an entry changes the accounts and the journal, and
/// nothing else.
pub proof fn lemma_replay_keeps_programs(
    c: ContextModel,
    key: Seq<u8>,
    edits: Seq<EditModel>,
    program: bool,
)
    ensures
        ({
            let after = replayed_edits(c, key, edits, program).context;
            &&& after.programs == c.programs
            &&& after.networks == c.networks
            &&& after.idls == c.idls
            &&& after.project_name == c.project_name
            &&& after.compose == c.compose
            &&& after.accounts.len() == c.accounts.len()
        }),
    decreases edits.len(),
{
    if edits.len() > 0 {
        lemma_replay_keeps_programs(c, key, edits.drop_last(), program);
        let prev = replayed_edits(c, key, edits.drop_last(), program);
        if prev.error is None && edited_context(prev.context, key, edits.last(), program) is Ok {
            crate::context::lemma_edit_reinserts(prev.context, key, edits.last(), program);
        }
    }
}

/// An entry whose target is among the programs and not among the accounts is
/// edited as a program data account, and those are looked for among the
/// accounts: unless it holds no edit, it fails with `NotFound` and changes
/// nothing.
pub proof fn lemma_program_entry_is_not_found(c: ContextModel, entry: OverrideModel)
    requires
        !has_key(c.accounts, entry.pubkey),
        has_key(c.programs, entry.pubkey),
        entry.edit_fields.len() > 0,
    ensures
        replayed_entry(c, entry) == (Replay {
            context: c,
            error: Some(ContextError::NotFound),
        }),
{
    lemma_edits_stop(c, entry.pubkey, entry.edit_fields, true, 1);
    let one = entry.edit_fields.take(1);
    assert(one.drop_last() =~= Seq::<EditModel>::empty());
    assert(replayed_edits(c, entry.pubkey, one.drop_last(), true) == (Replay {
        context: c,
        error: None,
    }));
}

impl Valid8Context {
    /// Applies the edits of one journal entry in order, stopping at the first
    /// that is refused. The target is looked for among the accounts first,
    /// then among the programs; an entry whose target is in neither is
    /// passed over.
    pub fn apply_entry(&mut self, over: &Override) -> (r: Result<(), ContextError>)
        ensures
            final(self)@ == replayed_entry(old(self)@, over@).context,
            r == match replayed_entry(old(self)@, over@).error {
                Some(e) => Err::<(), ContextError>(e),
                None => Ok::<(), ContextError>(()),
            },
    {
        let program = if self.has_account(&over.pubkey) {
            false
        } else if self.has_program(&over.pubkey) {
            true
        } else {
            return Ok(());
        };
        let ghost start = self@;
        let ghost edits = models(over.edit_fields@);
        let mut j: usize = 0;
        while j < over.edit_fields.len()
            invariant
                j <= over.edit_fields.len(),
                edits == models(over.edit_fields@),
                replayed_entry(old(self)@, over@) == replayed_edits(
                    start,
                    over.pubkey@,
                    edits,
                    program,
                ),
                replayed_edits(start, over.pubkey@, edits.take(j as int), program) == (Replay {
                    context: self@,
                    error: None,
                }),
            decreases over.edit_fields.len() - j,
        {
            let edit_field = over.edit_fields[j].duplicate();
            proof {
                assert(edits.take(j as int + 1).drop_last() =~= edits.take(j as int));
                assert(edits.take(j as int + 1).last() == edit_field@);
            }
            let outcome = if program {
                self.edit_program(&over.pubkey, edit_field)
            } else {
                self.edit_account(&over.pubkey, edit_field)
            };
            match outcome {
                Ok(()) => {},
                Err(e) => {
                    proof {
                        lemma_edits_stop(start, over.pubkey@, edits, program, j as int + 1);
                    }
                    return Err(e);
                },
            }
            j += 1;
        }
        proof {
            assert(edits.take(edits.len() as int) =~= edits);
        }
        Ok(())
    }

    /// Replays the journal as it stands at the call: each entry in order,
    /// each of its edits in order, until an edit is refused. Every edit that
    /// is applied is entered in the journal again.
    pub fn apply_overrides(&mut self) -> (r: Result<(), ContextError>)
        ensures
            old(self)@.overrides is None ==> r is Ok && final(self)@ == old(self)@,
            old(self)@.overrides is Some ==> ({
                let replay = replayed(old(self)@, old(self)@.overrides->Some_0);
                &&& final(self)@ == replay.context
                &&& r == match replay.error {
                    Some(e) => Err::<(), ContextError>(e),
                    None => Ok::<(), ContextError>(()),
                }
            }),
    {
        let journal = match &self.overrides {
            Some(list) => duplicate_list(list),
            None => {
                return Ok(());
            },
        };
        let ghost entries = models(journal@);
        let mut i: usize = 0;
        while i < journal.len()
            invariant
                i <= journal.len(),
                entries == models(journal@),
                old(self)@.overrides == Some(entries),
                replayed(old(self)@, entries.take(i as int)) == (Replay {
                    context: self@,
                    error: None,
                }),
            decreases journal.len() - i,
        {
            proof {
                assert(entries.take(i as int + 1).drop_last() =~= entries.take(i as int));
                assert(entries.take(i as int + 1).last() == journal@[i as int]@);
            }
            match self.apply_entry(&journal[i]) {
                Ok(()) => {},
                Err(e) => {
                    proof {
                        lemma_replay_stops(old(self)@, entries, i as int + 1);
                    }
                    return Err(e);
                },
            }
            i += 1;
        }
        proof {
            assert(entries.take(entries.len() as int) =~= entries);
        }
        Ok(())
    }
}

} // verus!
