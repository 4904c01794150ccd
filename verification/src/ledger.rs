use vstd::prelude::*;
use crate::account::{AccountModel, AccountSchema};
use crate::context::{
    distinct_keys, find_record, first_index, has_key, lemma_has_first, Valid8Context,
};
use crate::item::{lemma_models_push, models, Item};

verus! {

/// `list` with the record `r` in the place of the first record that has its
/// identifier, or at the end where none has.
pub open spec fn upserted(list: Seq<AccountModel>, r: AccountModel) -> Seq<AccountModel> {
    if has_key(list, r.pubkey) {
        list.update(first_index(list, r.pubkey), r)
    } else {
        list.push(r)
    }
}

/// The records that a ledger starts from: those of `all`, each identifier
/// once, in the order in which the identifiers first occur, and for each
/// identifier the record that comes last in `all`.
pub open spec fn entities(all: Seq<AccountModel>) -> Seq<AccountModel>
    decreases all.len(),
{
    if all.len() == 0 {
        Seq::empty()
    } else {
        upserted(entities(all.drop_last()), all.last())
    }
}

/// No identifier occurs twice among the records that a ledger starts from.
pub proof fn lemma_entities_distinct(all: Seq<AccountModel>)
    ensures
        distinct_keys(entities(all)),
    decreases all.len(),
{
    if all.len() > 0 {
        lemma_entities_distinct(all.drop_last());
        let prev = entities(all.drop_last());
        let r = all.last();
        let next = upserted(prev, r);
        if has_key(prev, r.pubkey) {
            lemma_has_first(prev, r.pubkey);
            assert forall|i: int, j: int| 0 <= i < j < next.len() implies (#[trigger] next[i]).pubkey
                != (#[trigger] next[j]).pubkey by {
                assert(next[i].pubkey == prev[i].pubkey);
                assert(next[j].pubkey == prev[j].pubkey);
            }
        } else {
            assert forall|i: int, j: int| 0 <= i < j < next.len() implies (#[trigger] next[i]).pubkey
                != (#[trigger] next[j]).pubkey by {
                if j == prev.len() {
                    assert(prev[i].pubkey != r.pubkey);
                } else {
                    assert(next[i] == prev[i]);
                    assert(next[j] == prev[j]);
                }
            }
        }
    }
}

/// A record behind which none of `all` has its identifier is among the
/// records that a ledger starts from.
pub proof fn lemma_entities_latest(all: Seq<AccountModel>, k: int)
    requires
        0 <= k < all.len(),
        forall|j: int| k < j < all.len() ==> (#[trigger] all[j]).pubkey != all[k].pubkey,
    ensures
        entities(all).contains(all[k]),
    decreases all.len(),
{
    let prev = entities(all.drop_last());
    let r = all.last();
    let next = upserted(prev, r);
    if has_key(prev, r.pubkey) {
        lemma_has_first(prev, r.pubkey);
    }
    if k == all.len() - 1 {
        if has_key(prev, r.pubkey) {
            assert(next[first_index(prev, r.pubkey)] == r);
        } else {
            assert(next[prev.len() as int] == r);
        }
    } else {
        assert(all.drop_last()[k] == all[k]);
        assert forall|j: int| k < j < all.drop_last().len() implies (#[trigger] all.drop_last()[j]).pubkey
            != all.drop_last()[k].pubkey by {
            assert(all.drop_last()[j] == all[j]);
        }
        lemma_entities_latest(all.drop_last(), k);
        let at = choose|at: int| 0 <= at < prev.len() && prev[at] == all[k];
        assert(all[all.len() - 1].pubkey != all[k].pubkey);
        assert(next[at] == all[k]);
    }
}

/// Puts `record` in the place of the first record of `list` with its
/// identifier, or at the end where there is none.
pub fn upsert(list: &mut Vec<AccountSchema>, record: &AccountSchema)
    ensures
        models(final(list)@) == upserted(models(old(list)@), record@),
{
    let copy = record.duplicate();
    match find_record(list, &record.pubkey) {
        Some(at) => {
            proof {
                assert(models(list@.update(at as int, copy)) =~= models(list@).update(
                    at as int,
                    copy@,
                ));
            }
            list.set(at, copy);
        },
        None => {
            proof {
                lemma_models_push(list@, copy);
            }
            list.push(copy);
        },
    }
}

impl Valid8Context {
    /// The records that a local ledger starts from: the programs, then the
    /// accounts, each identifier once; where an identifier occurs again, the
    /// later record takes the place of the earlier.
    pub fn ledger_accounts(&self) -> (r: Vec<AccountSchema>)
        ensures
            models(r@) == entities(self@.programs + self@.accounts),
    {
        let ghost programs = self@.programs;
        let ghost accounts = self@.accounts;
        let mut out: Vec<AccountSchema> = Vec::new();
        proof {
            assert(models(out@) =~= Seq::<AccountModel>::empty());
        }
        let mut i: usize = 0;
        while i < self.programs.len()
            invariant
                i <= self.programs.len(),
                programs == models(self.programs@),
                models(out@) == entities(programs.take(i as int)),
            decreases self.programs.len() - i,
        {
            proof {
                assert(programs.take(i as int + 1).drop_last() =~= programs.take(i as int));
                assert(programs.take(i as int + 1).last() == self.programs@[i as int]@);
            }
            upsert(&mut out, &self.programs[i]);
            i += 1;
        }
        proof {
            assert(programs.take(programs.len() as int) =~= programs);
            assert(programs + accounts.take(0) =~= programs);
        }
        let mut k: usize = 0;
        while k < self.accounts.len()
            invariant
                k <= self.accounts.len(),
                accounts == models(self.accounts@),
                models(out@) == entities(programs + accounts.take(k as int)),
            decreases self.accounts.len() - k,
        {
            proof {
                let longer = programs + accounts.take(k as int + 1);
                assert(longer.drop_last() =~= programs + accounts.take(k as int));
                assert(longer.last() == self.accounts@[k as int]@);
            }
            upsert(&mut out, &self.accounts[k]);
            k += 1;
        }
        proof {
            assert(accounts.take(accounts.len() as int) =~= accounts);
        }
        out
    }
}

} // verus!
