use vstd::prelude::*;
use crate::error::ContextError;
use crate::item::{models, Item};
use crate::overrides::{EditField, EditModel};
use crate::pubkey::Pubkey;

verus! {

/// The remote network that a record was fetched from.
#[derive(Clone, Copy, Debug, PartialEq, Eq, Structural)]
pub enum Network {
    Mainnet,
    Devnet,
    Testnet,
}

impl View for Network {
    type V = Network;

    open spec fn view(&self) -> Network {
        *self
    }
}

impl Item for Network {
    fn same(&self, other: &Self) -> (r: bool) {
        *self == *other
    }

    fn duplicate(&self) -> (r: Self) {
        *self
    }
}

/// One account or program as it was fetched, or as later edits left it.
#[derive(Clone, Debug, PartialEq, Eq)]
pub struct AccountSchema {
    pub pubkey: Pubkey,
    pub network: Network,
    pub owner: Pubkey,
    pub lamports: u64,
    pub executable: bool,
    pub data: Vec<u8>,
}

/// What a record holds.
pub struct AccountModel {
    pub pubkey: Seq<u8>,
    pub network: Network,
    pub owner: Seq<u8>,
    pub lamports: u64,
    pub executable: bool,
    pub data: Seq<u8>,
}

impl View for AccountSchema {
    type V = AccountModel;

    open spec fn view(&self) -> AccountModel {
        AccountModel {
            pubkey: self.pubkey@,
            network: self.network,
            owner: self.owner@,
            lamports: self.lamports,
            executable: self.executable,
            data: self.data@,
        }
    }
}

/// The bytes that encode the state of a program data account which was last
/// changed in `slot` and whose upgrade authority, if it has one, is
/// `authority`.
pub uninterp spec fn program_data_state(slot: u64, authority: Option<Seq<u8>>) -> Seq<u8>;

/// The encoded state that an edit of the upgrade authority writes: last
/// changed in slot 0, with `authority` as upgrade authority.
pub open spec fn program_data_header(authority: Seq<u8>) -> Seq<u8> {
    program_data_state(0, Some(authority))
}

/// `data` with the header for `authority` written over its first bytes, where
/// it is long enough to hold the header.
pub open spec fn with_authority(data: Seq<u8>, authority: Seq<u8>) -> Option<Seq<u8>> {
    let header = program_data_header(authority);
    if header.len() <= data.len() {
        Some(header + data.skip(header.len() as int))
    } else {
        None
    }
}

/// The record that an edit of a plain account leaves. An upgrade authority
/// is no part of a plain account, and its data cannot be replaced yet.
pub open spec fn edited_account(r: AccountModel, e: EditModel) -> Result<AccountModel, ContextError> {
    match e {
        EditModel::Lamports(n) => Ok(AccountModel { lamports: n, ..r }),
        EditModel::Owner(k) => Ok(AccountModel { owner: k, ..r }),
        EditModel::UpgradeAuthority(_) => Err(ContextError::UnsupportedEdit),
        EditModel::Data(_) => Err(ContextError::Unimplemented),
    }
}

/// The record that an edit of a program data account leaves. A new upgrade
/// authority rewrites the header of the encoded state; replacing the data
/// changes nothing yet.
pub open spec fn edited_program(r: AccountModel, e: EditModel) -> Result<AccountModel, ContextError> {
    match e {
        EditModel::Lamports(n) => Ok(AccountModel { lamports: n, ..r }),
        EditModel::Owner(k) => Ok(AccountModel { owner: k, ..r }),
        EditModel::UpgradeAuthority(k) => match with_authority(r.data, k) {
            Some(data) => Ok(AccountModel { data: data, ..r }),
            None => Err(ContextError::SerializationFailed),
        },
        EditModel::Data(_) => Ok(r),
    }
}

/// The record that one edit leaves: of a program data account where
/// `program` holds, else of a plain account.
pub open spec fn edited(r: AccountModel, e: EditModel, program: bool) -> Result<AccountModel, ContextError> {
    if program {
        edited_program(r, e)
    } else {
        edited_account(r, e)
    }
}

/// The record that a list of edits leaves when they are applied in order, or
/// the first error.
pub open spec fn edited_all(r: AccountModel, edits: Seq<EditModel>, program: bool) -> Result<
    AccountModel,
    ContextError,
>
    decreases edits.len(),
{
    if edits.len() == 0 {
        Ok(r)
    } else {
        match edited_all(r, edits.drop_last(), program) {
            Ok(prev) => edited(prev, edits.last(), program),
            Err(e) => Err(e),
        }
    }
}

/// Whether the edit `e` succeeds on `x` and leaves the same record of `x` as
/// of `y`: the two differ at most in what `e` overwrites.
pub open spec fn absorbs(x: AccountModel, y: AccountModel, e: EditModel, program: bool) -> bool {
    edited(x, e, program) is Ok && edited(x, e, program) == edited(y, e, program)
}

/// `solana_sdk::instruction::InstructionError`, the error of `set_state`.
/// Nothing is read from it.
#[verifier::external_type_specification]
#[verifier::external_body]
pub struct ExInstructionError(solana_sdk::instruction::InstructionError);

/// The view of an optional key.
pub open spec fn key_of(key: Option<Pubkey>) -> Option<Seq<u8>> {
    match key {
        Some(k) => Some(k@),
        None => None,
    }
}

/// Builds a `solana_sdk::account::Account` around `data` and calls
/// `StateMut::set_state` on it with the state
/// `UpgradeableLoaderState::ProgramData` of the given slot and upgrade
/// authority. The call refuses data shorter than the encoded state and
/// otherwise writes the encoded state over the first bytes, leaving the rest
/// and the length as they were. The encoded state depends on the slot and the
/// authority alone; it is known here only under the name
/// `program_data_state`, and by its length where there is an authority, which
/// `UpgradeableLoaderState::size_of_programdata_metadata` gives as 45.
#[verifier::external_body]
fn write_program_data_state(data: Vec<u8>, slot: u64, authority: Option<Pubkey>) -> (r: Result<
    Vec<u8>,
    solana_sdk::instruction::InstructionError,
>)
    ensures
        r is Ok <==> program_data_state(slot, key_of(authority)).len() <= data@.len(),
        r is Ok ==> r->Ok_0@ == program_data_state(slot, key_of(authority)) + data@.skip(
            program_data_state(slot, key_of(authority)).len() as int,
        ),
        authority is Some ==> (r is Ok <==> data@.len() >= 45),
{
    let state = solana_sdk::bpf_loader_upgradeable::UpgradeableLoaderState::ProgramData {
        slot,
        upgrade_authority_address: authority.map(
            |k| solana_sdk::pubkey::Pubkey::new_from_array(k.bytes),
        ),
    };
    let mut account = solana_sdk::account::Account { data, ..Default::default() };
    solana_sdk::account_utils::StateMut::set_state(&mut account, &state).map(|_| account.data)
}

/// Whether two byte strings are equal.
pub fn same_bytes(a: &Vec<u8>, b: &Vec<u8>) -> (r: bool)
    ensures
        r == (a@ == b@),
{
    if a.len() != b.len() {
        return false;
    }
    let mut i: usize = 0;
    while i < a.len()
        invariant
            i <= a.len(),
            a.len() == b.len(),
            forall|j: int| 0 <= j < i ==> a@[j] == b@[j],
        decreases a.len() - i,
    {
        if a[i] != b[i] {
            return false;
        }
        i += 1;
    }
    proof {
        assert(a@ =~= b@);
    }
    true
}

/// A fresh byte string with the same bytes.
pub fn duplicate_bytes(a: &Vec<u8>) -> (r: Vec<u8>)
    ensures
        r@ == a@,
{
    let mut out: Vec<u8> = Vec::new();
    let mut i: usize = 0;
    while i < a.len()
        invariant
            i <= a.len(),
            out@ == a@.take(i as int),
        decreases a.len() - i,
    {
        proof {
            assert(a@.take(i as int).push(a@[i as int]) =~= a@.take(i as int + 1));
        }
        out.push(a[i]);
        i += 1;
    }
    proof {
        assert(a@.take(a@.len() as int) =~= a@);
    }
    out
}

impl Item for AccountSchema {
    fn same(&self, other: &Self) -> (r: bool) {
        self.pubkey.same(&other.pubkey) && self.network == other.network && self.owner.same(
            &other.owner,
        ) && self.lamports == other.lamports && self.executable == other.executable && same_bytes(
            &self.data,
            &other.data,
        )
    }

    fn duplicate(&self) -> (r: Self) {
        AccountSchema {
            pubkey: self.pubkey,
            network: self.network,
            owner: self.owner,
            lamports: self.lamports,
            executable: self.executable,
            data: duplicate_bytes(&self.data),
        }
    }
}

impl AccountSchema {
    /// Applies one edit to a plain account that was taken out of the store.
    pub fn apply_account_edit(self, edit: &EditField) -> (r: Result<AccountSchema, ContextError>)
        ensures
            match edited_account(self@, edit@) {
                Ok(m) => r is Ok && r->Ok_0@ == m,
                Err(e) => r == Err::<AccountSchema, ContextError>(e),
            },
    {
        let mut account = self;
        match edit {
            EditField::Lamports(n) => {
                account.lamports = *n;
                Ok(account)
            },
            EditField::Owner(k) => {
                account.owner = *k;
                Ok(account)
            },
            EditField::UpgradeAuthority(_) => Err(ContextError::UnsupportedEdit),
            EditField::Data(_) => Err(ContextError::Unimplemented),
        }
    }

    /// Applies one edit to a program data account that was taken out of the
    /// store. A new upgrade authority needs data of at least 45 bytes, the
    /// length of the header; every other edit succeeds.
    pub fn apply_program_edit(self, edit: &EditField) -> (r: Result<AccountSchema, ContextError>)
        ensures
            match edited_program(self@, edit@) {
                Ok(m) => r is Ok && r->Ok_0@ == m,
                Err(e) => r == Err::<AccountSchema, ContextError>(e),
            },
            r is Ok <==> !(edit@ is UpgradeAuthority) || self@.data.len() >= 45,
    {
        let mut account = self;
        match edit {
            EditField::Lamports(n) => {
                account.lamports = *n;
                Ok(account)
            },
            EditField::Owner(k) => {
                account.owner = *k;
                Ok(account)
            },
            EditField::UpgradeAuthority(k) => {
                let AccountSchema { pubkey, network, owner, lamports, executable, data } = account;
                match write_program_data_state(data, 0, Some(*k)) {
                    Ok(rewritten) => Ok(
                        AccountSchema { pubkey, network, owner, lamports, executable, data: rewritten },
                    ),
                    Err(_) => Err(ContextError::SerializationFailed),
                }
            },
            EditField::Data(_) => Ok(account),
        }
    }
}

impl AccountSchema {
    /// Applies a list of edits in order to a record that was taken out of the
    /// store, as a program data account where `program` holds, else as a
    /// plain account, and stops at the first edit that is refused.
    pub fn apply_edits(self, edits: &Vec<EditField>, program: bool) -> (r: Result<
        AccountSchema,
        ContextError,
    >)
        ensures
            match edited_all(self@, models(edits@), program) {
                Ok(m) => r is Ok && r->Ok_0@ == m,
                Err(e) => r == Err::<AccountSchema, ContextError>(e),
            },
    {
        let ghost all = models(edits@);
        let mut account = self;
        let mut i: usize = 0;
        while i < edits.len()
            invariant
                i <= edits.len(),
                all == models(edits@),
                edited_all(self@, all.take(i as int), program) == Ok::<AccountModel, ContextError>(
                    account@,
                ),
            decreases edits.len() - i,
        {
            proof {
                assert(all.take(i as int + 1).drop_last() =~= all.take(i as int));
                assert(all.take(i as int + 1).last() == edits@[i as int]@);
            }
            let outcome = if program {
                account.apply_program_edit(&edits[i])
            } else {
                account.apply_account_edit(&edits[i])
            };
            match outcome {
                Ok(next) => {
                    account = next;
                },
                Err(e) => {
                    proof {
                        lemma_edits_fail(self@, all, program, i as int + 1);
                    }
                    return Err(e);
                },
            }
            i += 1;
        }
        proof {
            assert(all.take(all.len() as int) =~= all);
        }
        Ok(account)
    }
}

/// Once an edit of a list has failed, the list fails with that error.
pub proof fn lemma_edits_fail(r: AccountModel, edits: Seq<EditModel>, program: bool, n: int)
    requires
        0 <= n <= edits.len(),
        edited_all(r, edits.take(n), program) is Err,
    ensures
        edited_all(r, edits, program) == edited_all(r, edits.take(n), program),
    decreases edits.len(),
{
    if n == edits.len() {
        assert(edits.take(n) =~= edits);
    } else {
        assert(edits.drop_last().take(n) =~= edits.take(n));
        lemma_edits_fail(r, edits.drop_last(), program, n);
    }
}

/// An edit of a plain account that succeeds replaces the one field it names
/// and leaves every other field as it was.
pub proof fn lemma_account_edit_frame(r: AccountModel, e: EditModel)
    requires
        edited_account(r, e) is Ok,
    ensures
        ({
            let m = edited_account(r, e)->Ok_0;
            &&& m.pubkey == r.pubkey
            &&& m.network == r.network
            &&& m.executable == r.executable
            &&& m.data == r.data
            &&& e matches EditModel::Lamports(n) ==> m.lamports == n && m.owner == r.owner
            &&& e matches EditModel::Owner(k) ==> m.owner == k && m.lamports == r.lamports
        }),
{
}

/// An edit of a program data account that succeeds replaces what it names:
/// the balance, the owner, or the header of the encoded state, whose length
/// and remaining bytes stay. Every other field is left as it was.
pub proof fn lemma_program_edit_frame(r: AccountModel, e: EditModel)
    requires
        edited_program(r, e) is Ok,
    ensures
        ({
            let m = edited_program(r, e)->Ok_0;
            let header = program_data_header(e->UpgradeAuthority_0);
            &&& m.pubkey == r.pubkey
            &&& m.network == r.network
            &&& m.executable == r.executable
            &&& m.data.len() == r.data.len()
            &&& e matches EditModel::Lamports(n) ==> m.lamports == n && m.owner == r.owner
                && m.data == r.data
            &&& e matches EditModel::Owner(k) ==> m.owner == k && m.lamports == r.lamports
                && m.data == r.data
            &&& e is UpgradeAuthority ==> m.owner == r.owner && m.lamports == r.lamports
                && m.data.take(header.len() as int) == header
                && m.data.skip(header.len() as int) == r.data.skip(header.len() as int)
            &&& e is Data ==> m == r
        }),
{
    if e is UpgradeAuthority {
        let m = edited_program(r, e)->Ok_0;
        let header = program_data_header(e->UpgradeAuthority_0);
        assert(m.data.take(header.len() as int) =~= header);
        assert(m.data.skip(header.len() as int) =~= r.data.skip(header.len() as int));
    }
}

/// Applying an edit a second time changes nothing more.
pub proof fn lemma_edit_idempotent(r: AccountModel, e: EditModel, program: bool)
    requires
        edited(r, e, program) is Ok,
    ensures
        edited(edited(r, e, program)->Ok_0, e, program) == edited(r, e, program),
{
    if program && e is UpgradeAuthority {
        let m = edited_program(r, e)->Ok_0;
        let header = program_data_header(e->UpgradeAuthority_0);
        assert(m.data.skip(header.len() as int) =~= r.data.skip(header.len() as int));
    }
}

/// Two records that an edit makes equal have data of one length, which agree
/// behind the header where the edit sets the upgrade authority, and
/// everywhere else.
proof fn lemma_absorbed_data(x: AccountModel, y: AccountModel, e: EditModel, program: bool)
    requires
        absorbs(x, y, e, program),
    ensures
        x.data.len() == y.data.len(),
        program && e is UpgradeAuthority ==> ({
            let n = program_data_header(e->UpgradeAuthority_0).len() as int;
            n <= x.data.len() && x.data.skip(n) == y.data.skip(n)
        }),
        !(program && e is UpgradeAuthority) ==> x.data == y.data,
{
    if program && e is UpgradeAuthority {
        let header = program_data_header(e->UpgradeAuthority_0);
        let n = header.len() as int;
        let fx = header + x.data.skip(n);
        let fy = header + y.data.skip(n);
        assert(edited_program(x, e)->Ok_0.data == fx);
        assert(edited_program(y, e)->Ok_0.data == fy);
        assert(fx.len() == fy.len());
        assert forall|i: int| 0 <= i < x.data.len() - n implies x.data.skip(n)[i] == y.data.skip(
            n,
        )[i] by {
            assert(fx[n + i] == x.data.skip(n)[i]);
            assert(fy[n + i] == y.data.skip(n)[i]);
        }
        assert(x.data.skip(n) =~= y.data.skip(n));
    }
}

/// Records that differ at most in what `e` overwrites still do so after both
/// have taken another edit `g`.
proof fn lemma_edit_congruent(
    x: AccountModel,
    y: AccountModel,
    e: EditModel,
    g: EditModel,
    program: bool,
)
    requires
        absorbs(x, y, e, program),
        edited(x, g, program) is Ok,
    ensures
        edited(y, g, program) is Ok,
        absorbs(edited(x, g, program)->Ok_0, edited(y, g, program)->Ok_0, e, program),
{
    lemma_absorbed_data(x, y, e, program);
    if program && g is UpgradeAuthority {
        let hg = program_data_header(g->UpgradeAuthority_0);
        let m = hg.len() as int;
        let x2 = edited_program(x, g)->Ok_0;
        let y2 = edited_program(y, g)->Ok_0;
        assert(x2.data.len() == x.data.len());
        assert(y2.data.len() == y.data.len());
        if e is UpgradeAuthority {
            let n = program_data_header(e->UpgradeAuthority_0).len() as int;
            assert forall|i: int| 0 <= i < x.data.len() - n implies x2.data.skip(n)[i]
                == y2.data.skip(n)[i] by {
                if n + i >= m {
                    assert(x2.data[n + i] == x.data.skip(m)[n + i - m]);
                    assert(y2.data[n + i] == y.data.skip(m)[n + i - m]);
                    assert(x.data[n + i] == x.data.skip(n)[i]);
                    assert(y.data[n + i] == y.data.skip(n)[i]);
                } else {
                    assert(x2.data[n + i] == hg[n + i]);
                    assert(y2.data[n + i] == hg[n + i]);
                }
            }
            assert(x2.data.skip(n) =~= y2.data.skip(n));
        }
    }
}

/// Records that differ at most in what `e` overwrites still do so after both
/// have taken a list of edits.
proof fn lemma_edits_congruent(
    x: AccountModel,
    y: AccountModel,
    e: EditModel,
    edits: Seq<EditModel>,
    program: bool,
)
    requires
        absorbs(x, y, e, program),
        edited_all(x, edits, program) is Ok,
    ensures
        edited_all(y, edits, program) is Ok,
        absorbs(
            edited_all(x, edits, program)->Ok_0,
            edited_all(y, edits, program)->Ok_0,
            e,
            program,
        ),
    decreases edits.len(),
{
    if edits.len() > 0 {
        let init = edits.drop_last();
        lemma_edits_congruent(x, y, e, init, program);
        lemma_edit_congruent(
            edited_all(x, init, program)->Ok_0,
            edited_all(y, init, program)->Ok_0,
            e,
            edits.last(),
            program,
        );
    }
}

/// Applying a list of edits a second time to the record that it has left
/// changes nothing more: a replay ends in the same record, however often it
/// runs.
pub proof fn lemma_replay_deterministic(r: AccountModel, edits: Seq<EditModel>, program: bool)
    requires
        edited_all(r, edits, program) is Ok,
    ensures
        edited_all(edited_all(r, edits, program)->Ok_0, edits, program) == edited_all(
            r,
            edits,
            program,
        ),
    decreases edits.len(),
{
    if edits.len() > 0 {
        let init = edits.drop_last();
        let e = edits.last();
        let p = edited_all(r, init, program)->Ok_0;
        let r1 = edited(p, e, program)->Ok_0;
        lemma_replay_deterministic(r, init, program);
        lemma_edit_idempotent(p, e, program);
        lemma_edits_congruent(p, r1, e, init, program);
    }
}

} // verus!
