use vstd::prelude::*;
use crate::account::{edited_account, edited_program, AccountModel, AccountSchema, Network};
use crate::error::ContextError;
use crate::item::{
    contains_item, duplicate_list, lemma_models_push, lemma_models_remove, merged, models, Item,
};
use crate::overrides::{EditField, EditModel, Override, OverrideModel};
use crate::pubkey::{base58_text, is_system_text, Pubkey};

verus! {

/// The records, overrides and settings of one project.
#[derive(Clone, Debug, PartialEq, Eq)]
pub struct Valid8Context {
    pub project_name: String,
    /// The networks that records were fetched from; none is listed twice.
    pub networks: Vec<Network>,
    pub programs: Vec<AccountSchema>,
    pub accounts: Vec<AccountSchema>,
    /// The journal of edits, once there is one.
    pub overrides: Option<Vec<Override>>,
    /// The addresses of the programs whose interface description was found.
    pub idls: Vec<String>,
    /// The name of the configuration that this one builds on.
    pub compose: Option<String>,
}

/// What a context holds.
pub struct ContextModel {
    pub project_name: Seq<char>,
    pub networks: Seq<Network>,
    pub programs: Seq<AccountModel>,
    pub accounts: Seq<AccountModel>,
    pub overrides: Option<Seq<OverrideModel>>,
    pub idls: Seq<Seq<char>>,
    pub compose: Option<Seq<char>>,
}

/// The text of an optional string.
pub open spec fn text_of(name: Option<String>) -> Option<Seq<char>> {
    match name {
        Some(s) => Some(s@),
        None => None,
    }
}

/// The views of an optional list.
pub open spec fn journal_of(list: Option<Vec<Override>>) -> Option<Seq<OverrideModel>> {
    match list {
        Some(l) => Some(models(l@)),
        None => None,
    }
}

impl View for Valid8Context {
    type V = ContextModel;

    open spec fn view(&self) -> ContextModel {
        ContextModel {
            project_name: self.project_name@,
            networks: models(self.networks@),
            programs: models(self.programs@),
            accounts: models(self.accounts@),
            overrides: journal_of(self.overrides),
            idls: models(self.idls@),
            compose: text_of(self.compose),
        }
    }
}

/// What the caller has to do next to complete an addition.
#[derive(Clone, Copy, Debug, PartialEq, Eq)]
pub enum NextStep {
    /// Nothing: the store holds what was asked for.
    Done,
    /// Fetch this account from this network and hand it to
    /// `add_account_unchecked`.
    FetchAccount(Network, Pubkey),
    /// Fetch this program from this network, with its data and interface
    /// description unless it is a system program, and hand them to
    /// `add_program_unchecked`.
    FetchProgram(Network, Pubkey),
}

/// Whether a record with the identifier `key` is in `list`.
pub open spec fn has_key(list: Seq<AccountModel>, key: Seq<u8>) -> bool {
    exists|i: int| 0 <= i < list.len() && #[trigger] list[i].pubkey == key
}

/// Whether `i` is the place of the first record of `list` with the identifier
/// `key`.
pub open spec fn is_first(list: Seq<AccountModel>, key: Seq<u8>, i: int) -> bool {
    &&& 0 <= i < list.len()
    &&& list[i].pubkey == key
    &&& forall|j: int| 0 <= j < i ==> #[trigger] list[j].pubkey != key
}

/// The place of the first record of `list` with the identifier `key`.
pub open spec fn first_index(list: Seq<AccountModel>, key: Seq<u8>) -> int {
    choose|i: int| is_first(list, key, i)
}

/// The first place with a given identifier is the only one that is first.
pub proof fn lemma_first_index(list: Seq<AccountModel>, key: Seq<u8>, i: int)
    requires
        is_first(list, key, i),
    ensures
        has_key(list, key),
        first_index(list, key) == i,
{
    let c = first_index(list, key);
    assert(is_first(list, key, c));
    if c < i {
        assert(list[c].pubkey == key);
    }
    if i < c {
        assert(list[i].pubkey == key);
    }
}

/// Where a list holds a record with the identifier `key`, `first_index` is
/// the place of the first such record.
pub proof fn lemma_has_first(list: Seq<AccountModel>, key: Seq<u8>)
    requires
        has_key(list, key),
    ensures
        is_first(list, key, first_index(list, key)),
{
    let n = choose|i: int| 0 <= i < list.len() && #[trigger] list[i].pubkey == key;
    lemma_first_before(list, key, n);
}

/// A record with the identifier `key` at the place `n` has a first such
/// record at or before it.
proof fn lemma_first_before(list: Seq<AccountModel>, key: Seq<u8>, n: int)
    requires
        0 <= n < list.len(),
        list[n].pubkey == key,
    ensures
        exists|i: int| is_first(list, key, i),
    decreases n,
{
    if exists|j: int| 0 <= j < n && #[trigger] list[j].pubkey == key {
        let j = choose|j: int| 0 <= j < n && #[trigger] list[j].pubkey == key;
        lemma_first_before(list, key, j);
    } else {
        assert(is_first(list, key, n));
    }
}

/// After an account was taken in, the store holds its identifier: adding it
/// again asks for no fetch and changes nothing.
pub proof fn lemma_add_account_idempotent(c: ContextModel, network: Network, account: AccountModel)
    ensures
        has_key(account_added(c, network, account).accounts, account.pubkey),
{
    let after = account_added(c, network, account).accounts;
    assert(after[c.accounts.len() as int].pubkey == account.pubkey);
}

/// After a program that is no system program was taken in, the store holds
/// its identifier: adding it again asks for no fetch and changes nothing.
pub proof fn lemma_add_program_idempotent(
    c: ContextModel,
    program: AccountModel,
    data: AccountModel,
    idl_found: bool,
)
    requires
        !is_system_text(base58_text(program.pubkey)),
    ensures
        has_key(program_added(c, program, data, idl_found).programs, program.pubkey),
{
    let after = program_added(c, program, data, idl_found).programs;
    assert(after[c.programs.len() as int].pubkey == program.pubkey);
}

/// Taking in a program that is no system program adds exactly one record to
/// the programs, the program, and exactly one to the accounts, its data
/// account; taking in a system program adds nothing.
pub proof fn lemma_dependency_closure(
    c: ContextModel,
    program: AccountModel,
    data: AccountModel,
    idl_found: bool,
)
    ensures
        ({
            let after = program_added(c, program, data, idl_found);
            if is_system_text(base58_text(program.pubkey)) {
                after == c
            } else {
                &&& after.programs.len() == c.programs.len() + 1
                &&& after.programs.drop_last() == c.programs
                &&& after.programs.last() == program
                &&& after.accounts.len() == c.accounts.len() + 1
                &&& after.accounts.drop_last() == c.accounts
                &&& after.accounts.last() == data
                &&& after.networks == c.networks
                &&& after.overrides == c.overrides
            }
        }),
{
    let after = program_added(c, program, data, idl_found);
    if !is_system_text(base58_text(program.pubkey)) {
        assert(after.programs.drop_last() =~= c.programs);
        assert(after.accounts.drop_last() =~= c.accounts);
    }
}

/// An edit that succeeds takes the first record with the identifier out of
/// the accounts and appends the edited record: the store still holds the
/// identifier, the record at the end is the old one with the edit applied,
/// and the other records and the rest of the context are as they were.
pub proof fn lemma_edit_reinserts(c: ContextModel, key: Seq<u8>, e: EditModel, program: bool)
    requires
        edited_context(c, key, e, program) is Ok,
    ensures
        ({
            let m = edited_context(c, key, e, program)->Ok_0;
            let i = first_index(c.accounts, key);
            &&& is_first(c.accounts, key, i)
            &&& has_key(m.accounts, key)
            &&& m.accounts.len() == c.accounts.len()
            &&& m.accounts.last().pubkey == key
            &&& Ok::<AccountModel, ContextError>(m.accounts.last()) == (if program {
                edited_program(c.accounts[i], e)
            } else {
                edited_account(c.accounts[i], e)
            })
            &&& m.accounts.drop_last() == c.accounts.remove(i)
            &&& m.programs == c.programs
            &&& m.networks == c.networks
            &&& m.idls == c.idls
            &&& m.project_name == c.project_name
            &&& m.compose == c.compose
        }),
{
    lemma_has_first(c.accounts, key);
    let m = edited_context(c, key, e, program)->Ok_0;
    let i = first_index(c.accounts, key);
    assert(m.accounts.drop_last() =~= c.accounts.remove(i));
    assert(m.accounts[m.accounts.len() - 1].pubkey == key);
}

/// Whether no two records of `list` have the same identifier.
pub open spec fn distinct_keys(list: Seq<AccountModel>) -> bool {
    forall|i: int, j: int|
        0 <= i < j < list.len() ==> (#[trigger] list[i]).pubkey != (#[trigger] list[j]).pubkey
}

/// Whether the store is consistent: no identifier occurs twice among the
/// accounts, none twice among the programs, and no network is listed twice.
pub open spec fn well_formed(c: ContextModel) -> bool {
    &&& distinct_keys(c.accounts)
    &&& distinct_keys(c.programs)
    &&& c.networks.no_duplicates()
}

/// Taking in an account that the store does not hold keeps the store
/// consistent.
pub proof fn lemma_add_account_well_formed(c: ContextModel, network: Network, account: AccountModel)
    requires
        well_formed(c),
        !has_key(c.accounts, account.pubkey),
    ensures
        well_formed(account_added(c, network, account)),
{
    let after = account_added(c, network, account);
    crate::item::lemma_merged_no_duplicates(c.networks, seq![network]);
    assert forall|i: int, j: int| 0 <= i < j < after.accounts.len() implies (
    #[trigger] after.accounts[i]).pubkey != (#[trigger] after.accounts[j]).pubkey by {
        if j == c.accounts.len() {
            assert(c.accounts[i].pubkey != account.pubkey);
        } else {
            assert(after.accounts[i] == c.accounts[i]);
            assert(after.accounts[j] == c.accounts[j]);
        }
    }
}

/// Taking in a program that the store does not hold, with a data account
/// that it does not hold, keeps the store consistent.
pub proof fn lemma_add_program_well_formed(
    c: ContextModel,
    program: AccountModel,
    data: AccountModel,
    idl_found: bool,
)
    requires
        well_formed(c),
        !has_key(c.programs, program.pubkey),
        !has_key(c.accounts, data.pubkey),
    ensures
        well_formed(program_added(c, program, data, idl_found)),
{
    let after = program_added(c, program, data, idl_found);
    if !is_system_text(base58_text(program.pubkey)) {
        assert forall|i: int, j: int| 0 <= i < j < after.accounts.len() implies (
        #[trigger] after.accounts[i]).pubkey != (#[trigger] after.accounts[j]).pubkey by {
            if j == c.accounts.len() {
                assert(c.accounts[i].pubkey != data.pubkey);
            } else {
                assert(after.accounts[i] == c.accounts[i]);
                assert(after.accounts[j] == c.accounts[j]);
            }
        }
        assert forall|i: int, j: int| 0 <= i < j < after.programs.len() implies (
        #[trigger] after.programs[i]).pubkey != (#[trigger] after.programs[j]).pubkey by {
            if j == c.programs.len() {
                assert(c.programs[i].pubkey != program.pubkey);
            } else {
                assert(after.programs[i] == c.programs[i]);
                assert(after.programs[j] == c.programs[j]);
            }
        }
    }
}

/// An edit keeps the store consistent.
pub proof fn lemma_edit_well_formed(c: ContextModel, key: Seq<u8>, e: EditModel, program: bool)
    requires
        well_formed(c),
        edited_context(c, key, e, program) is Ok,
    ensures
        well_formed(edited_context(c, key, e, program)->Ok_0),
{
    lemma_edit_reinserts(c, key, e, program);
    let m = edited_context(c, key, e, program)->Ok_0;
    let at = first_index(c.accounts, key);
    let others = c.accounts.remove(at);
    assert(m.accounts.drop_last() == others);
    assert forall|i: int, j: int| 0 <= i < j < m.accounts.len() implies (#[trigger] m.accounts[i]).pubkey
        != (#[trigger] m.accounts[j]).pubkey by {
        let from = |n: int| if n < at { n } else { n + 1 };
        assert(m.accounts[i] == others[i]);
        assert(others[i] == c.accounts[from(i)]);
        if j == others.len() {
            assert(m.accounts[j].pubkey == c.accounts[at].pubkey);
            assert(c.accounts[from(i)].pubkey != c.accounts[at].pubkey);
        } else {
            assert(m.accounts[j] == others[j]);
            assert(others[j] == c.accounts[from(j)]);
            assert(c.accounts[from(i)].pubkey != c.accounts[from(j)].pubkey);
        }
    }
}

/// The journal as a list: empty where there is none yet.
pub open spec fn entries(journal: Option<Seq<OverrideModel>>) -> Seq<OverrideModel> {
    match journal {
        Some(list) => list,
        None => Seq::empty(),
    }
}

/// The context after the edit `e` of the record `key`: the first record with
/// that identifier leaves the accounts, the edited record is appended, and the
/// journal gains an entry for the edit. `program` says whether the record is
/// edited as a program data account or as a plain account.
pub open spec fn edited_context(c: ContextModel, key: Seq<u8>, e: EditModel, program: bool) -> Result<
    ContextModel,
    ContextError,
> {
    if !has_key(c.accounts, key) {
        Err(ContextError::NotFound)
    } else {
        let i = first_index(c.accounts, key);
        let edited = if program {
            edited_program(c.accounts[i], e)
        } else {
            edited_account(c.accounts[i], e)
        };
        match edited {
            Err(x) => Err(x),
            Ok(a) => Ok(
                ContextModel {
                    accounts: c.accounts.remove(i).push(a),
                    overrides: Some(
                        entries(c.overrides).push(
                            OverrideModel { pubkey: key, edit_fields: seq![e] },
                        ),
                    ),
                    ..c
                },
            ),
        }
    }
}

/// The context after a program was fetched: unchanged where the program is a
/// system program; else with the program, its data account and, where its
/// interface description was found, its address appended.
pub open spec fn program_added(
    c: ContextModel,
    program: AccountModel,
    data: AccountModel,
    idl_found: bool,
) -> ContextModel {
    if is_system_text(base58_text(program.pubkey)) {
        c
    } else {
        ContextModel {
            programs: c.programs.push(program),
            accounts: c.accounts.push(data),
            idls: if idl_found {
                c.idls.push(base58_text(program.pubkey))
            } else {
                c.idls
            },
            ..c
        }
    }
}

/// The context after an account was fetched from `network`.
pub open spec fn account_added(c: ContextModel, network: Network, account: AccountModel) -> ContextModel {
    ContextModel {
        accounts: c.accounts.push(account),
        networks: merged(c.networks, seq![network]),
        ..c
    }
}

/// How far a replay of the journal came.
pub struct Replay {
    /// The context that the edits applied so far have left.
    pub context: ContextModel,
    /// The error that stopped the replay, if one did.
    pub error: Option<ContextError>,
}

/// Applies `edits` in order to the record `key` until one fails.
pub open spec fn replayed_edits(c: ContextModel, key: Seq<u8>, edits: Seq<EditModel>, program: bool) -> Replay
    decreases edits.len(),
{
    if edits.len() == 0 {
        Replay { context: c, error: None }
    } else {
        let prev = replayed_edits(c, key, edits.drop_last(), program);
        if prev.error is Some {
            prev
        } else {
            match edited_context(prev.context, key, edits.last(), program) {
                Ok(m) => Replay { context: m, error: None },
                Err(e) => Replay { context: prev.context, error: Some(e) },
            }
        }
    }
}

/// Applies one journal entry: to the accounts where its target is among
/// them, else as a program edit where its target is among the programs, else
/// not at all.
pub open spec fn replayed_entry(c: ContextModel, entry: OverrideModel) -> Replay {
    if has_key(c.accounts, entry.pubkey) {
        replayed_edits(c, entry.pubkey, entry.edit_fields, false)
    } else if has_key(c.programs, entry.pubkey) {
        replayed_edits(c, entry.pubkey, entry.edit_fields, true)
    } else {
        Replay { context: c, error: None }
    }
}

/// Applies the entries of `journal` in order until an edit fails.
pub open spec fn replayed(c: ContextModel, journal: Seq<OverrideModel>) -> Replay
    decreases journal.len(),
{
    if journal.len() == 0 {
        Replay { context: c, error: None }
    } else {
        let prev = replayed(c, journal.drop_last());
        if prev.error is Some {
            prev
        } else {
            replayed_entry(prev.context, journal.last())
        }
    }
}

/// Whether every read of the list gave a record.
pub fn all_present(reads: &Vec<Option<AccountSchema>>) -> (r: bool)
    ensures
        r == all_read(reads@),
{
    let mut i: usize = 0;
    while i < reads.len()
        invariant
            i <= reads.len(),
            forall|j: int| 0 <= j < i ==> (#[trigger] reads@[j]) is Some,
        decreases reads.len() - i,
    {
        if reads[i].is_none() {
            return false;
        }
        i += 1;
    }
    true
}

/// The place of the first record of `list` with the identifier `key`.
pub fn find_record(list: &Vec<AccountSchema>, key: &Pubkey) -> (r: Option<usize>)
    ensures
        r is Some <==> has_key(models(list@), key@),
        r is Some ==> r->Some_0 < list.len() && is_first(models(list@), key@, r->Some_0 as int)
            && first_index(models(list@), key@) == r->Some_0,
{
    let mut i: usize = 0;
    while i < list.len()
        invariant
            i <= list.len(),
            forall|j: int| 0 <= j < i ==> (#[trigger] models(list@)[j]).pubkey != key@,
        decreases list.len() - i,
    {
        if list[i].pubkey.same(key) {
            proof {
                assert(models(list@)[i as int].pubkey == key@);
                lemma_first_index(models(list@), key@, i as int);
            }
            return Some(i);
        }
        i += 1;
    }
    None
}

/// The records that were read, where every read gave one.
pub open spec fn all_read(reads: Seq<Option<AccountSchema>>) -> bool {
    forall|i: int| 0 <= i < reads.len() ==> (#[trigger] reads[i]) is Some
}

/// The records of a list of reads from local storage, `None` standing for a
/// record that could not be read: all of them in order where every read gave
/// one, else none at all.
pub fn installed_records(reads: &Vec<Option<AccountSchema>>) -> (r: Vec<AccountSchema>)
    ensures
        all_read(reads@) ==> r.len() == reads.len() && forall|i: int|
            0 <= i < reads.len() ==> r@[i]@ == (#[trigger] reads@[i])->Some_0@,
        !all_read(reads@) ==> r.len() == 0,
{
    let mut out: Vec<AccountSchema> = Vec::new();
    let mut i: usize = 0;
    while i < reads.len()
        invariant
            i <= reads.len(),
            out.len() == i,
            forall|j: int| 0 <= j < i ==> (#[trigger] reads@[j]) is Some && out@[j]@ == reads@[j]->Some_0@,
        decreases reads.len() - i,
    {
        match &reads[i] {
            Some(record) => {
                out.push(record.duplicate());
            },
            None => {
                return Vec::new();
            },
        }
        i += 1;
    }
    out
}

impl Valid8Context {
    /// The context of a configuration that was read from local storage. The
    /// programs and the accounts are those that were read, where every read
    /// of the list gave a record, else none.
    pub fn from_loaded(
        project_name: String,
        networks: Vec<Network>,
        programs: &Vec<Option<AccountSchema>>,
        accounts: &Vec<Option<AccountSchema>>,
        overrides: Option<Vec<Override>>,
        idls: Vec<String>,
        compose: Option<String>,
    ) -> (r: Valid8Context)
        ensures
            r.project_name == project_name,
            r.networks == networks,
            r.overrides == overrides,
            r.idls == idls,
            r.compose == compose,
            all_read(programs@) ==> r.programs.len() == programs.len() && forall|i: int|
                0 <= i < programs.len() ==> r.programs@[i]@ == (#[trigger] programs@[i])->Some_0@,
            !all_read(programs@) ==> r.programs.len() == 0,
            all_read(accounts@) ==> r.accounts.len() == accounts.len() && forall|i: int|
                0 <= i < accounts.len() ==> r.accounts@[i]@ == (#[trigger] accounts@[i])->Some_0@,
            !all_read(accounts@) ==> r.accounts.len() == 0,
    {
        Valid8Context {
            project_name,
            networks,
            programs: installed_records(programs),
            accounts: installed_records(accounts),
            overrides,
            idls,
            compose,
        }
    }

    /// Whether every record of the configuration could be read, so that the
    /// configuration counts as installed.
    pub fn is_installed(
        programs: &Vec<Option<AccountSchema>>,
        accounts: &Vec<Option<AccountSchema>>,
    ) -> (r: bool)
        ensures
            r == (all_read(programs@) && all_read(accounts@)),
    {
        all_present(programs) && all_present(accounts)
    }

    /// The empty context of the project `project_name`.
    pub fn new(project_name: String) -> (r: Valid8Context)
        ensures
            r@ == (ContextModel {
                project_name: project_name@,
                networks: Seq::empty(),
                programs: Seq::empty(),
                accounts: Seq::empty(),
                overrides: None,
                idls: Seq::empty(),
                compose: None,
            }),
    {
        let r = Valid8Context {
            project_name,
            networks: Vec::new(),
            programs: Vec::new(),
            accounts: Vec::new(),
            overrides: None,
            idls: Vec::new(),
            compose: None,
        };
        proof {
            assert(r@.networks =~= Seq::empty());
            assert(r@.programs =~= Seq::empty());
            assert(r@.accounts =~= Seq::empty());
            assert(r@.idls =~= Seq::empty());
        }
        r
    }

    /// A fresh context that holds the same.
    pub fn duplicate(&self) -> (r: Valid8Context)
        ensures
            r@ == self@,
    {
        Valid8Context {
            project_name: self.project_name.clone(),
            networks: duplicate_list(&self.networks),
            programs: duplicate_list(&self.programs),
            accounts: duplicate_list(&self.accounts),
            overrides: match &self.overrides {
                Some(list) => Some(duplicate_list(list)),
                None => None,
            },
            idls: duplicate_list(&self.idls),
            compose: match &self.compose {
                Some(name) => Some(name.clone()),
                None => None,
            },
        }
    }

    /// Whether the accounts hold a record with this identifier.
    pub fn has_account(&self, pubkey: &Pubkey) -> (r: bool)
        ensures
            r == has_key(self@.accounts, pubkey@),
    {
        find_record(&self.accounts, pubkey).is_some()
    }

    /// Whether the programs hold a record with this identifier.
    pub fn has_program(&self, program_id: &Pubkey) -> (r: bool)
        ensures
            r == has_key(self@.programs, program_id@),
    {
        find_record(&self.programs, program_id).is_some()
    }

    /// Decides what adding the program `program_id` takes: nothing where the
    /// store holds it already, else a fetch from `network`.
    pub fn add_program(&self, network: &Network, program_id: &Pubkey) -> (r: NextStep)
        ensures
            r == if has_key(self@.programs, program_id@) {
                NextStep::Done
            } else {
                NextStep::FetchProgram(*network, *program_id)
            },
    {
        if self.has_program(program_id) {
            NextStep::Done
        } else {
            NextStep::FetchProgram(*network, *program_id)
        }
    }

    /// Takes in what was fetched for a program: the program's record, the
    /// record of its data account and whether its interface description was
    /// found. `None` stands for a fetch that failed. A system program is
    /// neither stored nor followed, so for one only the program's record
    /// counts.
    pub fn add_program_unchecked(
        &mut self,
        program_account: Option<AccountSchema>,
        program_data: Option<AccountSchema>,
        idl_found: bool,
    ) -> (r: Result<(), ContextError>)
        ensures
            r is Ok <==> program_account is Some && (program_data is Some || is_system_text(
                base58_text(program_account->Some_0@.pubkey),
            )),
            r is Err ==> r->Err_0 == ContextError::RemoteFetchFailed && final(self)@ == old(self)@,
            r is Ok && program_data is Some ==> final(self)@ == program_added(
                old(self)@,
                program_account->Some_0@,
                program_data->Some_0@,
                idl_found,
            ),
            r is Ok && program_data is None ==> final(self)@ == old(self)@,
    {
        let program = match program_account {
            Some(program) => program,
            None => {
                return Err(ContextError::RemoteFetchFailed);
            },
        };
        if program.pubkey.is_system_program() {
            return Ok(());
        }
        let data = match program_data {
            Some(data) => data,
            None => {
                return Err(ContextError::RemoteFetchFailed);
            },
        };
        let program_id = program.pubkey;
        proof {
            lemma_models_push(self.programs@, program);
            lemma_models_push(self.accounts@, data);
        }
        self.programs.push(program);
        self.accounts.push(data);
        if idl_found {
            let _ = self.add_idl(&program_id);
        }
        Ok(())
    }

    /// Decides what adding the account `pubkey` takes: nothing where the
    /// store holds it already, else a fetch from `network`.
    pub fn add_account(&self, network: &Network, pubkey: &Pubkey) -> (r: NextStep)
        ensures
            r == if has_key(self@.accounts, pubkey@) {
                NextStep::Done
            } else {
                NextStep::FetchAccount(*network, *pubkey)
            },
    {
        if self.has_account(pubkey) {
            NextStep::Done
        } else {
            NextStep::FetchAccount(*network, *pubkey)
        }
    }

    /// Takes in the account that was fetched from `network`, `None` standing
    /// for a fetch that failed, and says whether the program that owns it has
    /// to be resolved next.
    pub fn add_account_unchecked(&mut self, network: &Network, account: Option<AccountSchema>) -> (r:
        Result<NextStep, ContextError>)
        ensures
            match account {
                None => r == Err::<NextStep, ContextError>(ContextError::RemoteFetchFailed)
                    && final(self)@ == old(self)@,
                Some(a) => final(self)@ == account_added(old(self)@, *network, a@) && r == Ok::<
                    NextStep,
                    ContextError,
                >(
                    if has_key(old(self)@.programs, a@.owner) {
                        NextStep::Done
                    } else {
                        NextStep::FetchProgram(*network, a.owner)
                    },
                ),
            },
    {
        let account = match account {
            Some(account) => account,
            None => {
                return Err(ContextError::RemoteFetchFailed);
            },
        };
        let owner = account.owner;
        proof {
            lemma_models_push(self.accounts@, account);
            let one = seq![*network];
            assert(one.drop_last() =~= Seq::<Network>::empty());
            assert(one.last() == *network);
            assert(merged(models(self.networks@), one.drop_last()) == models(self.networks@));
        }
        self.accounts.push(account);
        if !contains_item(&self.networks, network) {
            proof {
                lemma_models_push(self.networks@, *network);
            }
            self.networks.push(*network);
        }
        if self.has_program(&owner) {
            Ok(NextStep::Done)
        } else {
            Ok(NextStep::FetchProgram(*network, owner))
        }
    }

    /// Notes that the interface description of `program_id` was found.
    pub fn add_idl(&mut self, program_id: &Pubkey) -> (r: Result<(), ContextError>)
        ensures
            r is Ok,
            final(self)@ == (ContextModel {
                idls: old(self)@.idls.push(base58_text(program_id@)),
                ..old(self)@
            }),
    {
        let text = program_id.address();
        proof {
            lemma_models_push(self.idls@, text);
        }
        self.idls.push(text);
        Ok(())
    }

    /// Takes the first record with this identifier out of the accounts.
    pub fn get_account(&mut self, pubkey: &Pubkey) -> (r: Result<AccountSchema, ContextError>)
        ensures
            r is Ok <==> has_key(old(self)@.accounts, pubkey@),
            r is Err ==> r->Err_0 == ContextError::NotFound && final(self)@ == old(self)@,
            r is Ok ==> ({
                let i = first_index(old(self)@.accounts, pubkey@);
                &&& r->Ok_0@ == old(self)@.accounts[i]
                &&& final(self)@ == (ContextModel {
                    accounts: old(self)@.accounts.remove(i),
                    ..old(self)@
                })
            }),
    {
        match find_record(&self.accounts, pubkey) {
            None => Err(ContextError::NotFound),
            Some(i) => {
                proof {
                    lemma_models_remove(self.accounts@, i as int);
                }
                Ok(self.accounts.remove(i))
            },
        }
    }

    /// Appends an entry to the journal, starting the journal where there is
    /// none.
    pub fn add_override(&mut self, over: Override)
        ensures
            final(self)@ == (ContextModel {
                overrides: Some(entries(old(self)@.overrides).push(over@)),
                ..old(self)@
            }),
    {
        let mut list: Vec<Override> = match self.overrides.take() {
            Some(list) => list,
            None => Vec::new(),
        };
        proof {
            lemma_models_push(list@, over);
            assert(models(Seq::<Override>::empty()) =~= Seq::<OverrideModel>::empty());
        }
        list.push(over);
        self.overrides = Some(list);
    }

    /// Edits the record `pubkey` as a plain account or as a program data
    /// account, and leaves the context as it was where the edit is refused.
    fn edit(&mut self, pubkey: &Pubkey, edit_field: EditField, program: bool) -> (r: Result<
        (),
        ContextError,
    >)
        ensures
            match edited_context(old(self)@, pubkey@, edit_field@, program) {
                Ok(m) => r is Ok && final(self)@ == m,
                Err(e) => r == Err::<(), ContextError>(e) && final(self)@ == old(self)@,
            },
    {
        let i = match find_record(&self.accounts, pubkey) {
            Some(i) => i,
            None => {
                return Err(ContextError::NotFound);
            },
        };
        let taken = self.accounts[i].duplicate();
        let outcome = if program {
            taken.apply_program_edit(&edit_field)
        } else {
            taken.apply_account_edit(&edit_field)
        };
        let edited = match outcome {
            Ok(edited) => edited,
            Err(e) => {
                return Err(e);
            },
        };
        proof {
            lemma_models_remove(self.accounts@, i as int);
            lemma_models_push(self.accounts@.remove(i as int), edited);
        }
        self.accounts.remove(i);
        self.accounts.push(edited);
        self.add_override(Override::new(*pubkey, edit_field));
        Ok(())
    }

    /// Applies one edit to the plain account `pubkey`: the record leaves the
    /// accounts, is edited and appended again, and the journal gains the edit.
    pub fn edit_account(&mut self, pubkey: &Pubkey, edit_field: EditField) -> (r: Result<
        (),
        ContextError,
    >)
        ensures
            match edited_context(old(self)@, pubkey@, edit_field@, false) {
                Ok(m) => r is Ok && final(self)@ == m,
                Err(e) => r == Err::<(), ContextError>(e) && final(self)@ == old(self)@,
            },
    {
        self.edit(pubkey, edit_field, false)
    }

    /// Applies one edit to the program data account `pubkey`: the record
    /// leaves the accounts, is edited and appended again, and the journal
    /// gains the edit.
    pub fn edit_program(&mut self, pubkey: &Pubkey, edit_field: EditField) -> (r: Result<
        (),
        ContextError,
    >)
        ensures
            match edited_context(old(self)@, pubkey@, edit_field@, true) {
                Ok(m) => r is Ok && final(self)@ == m,
                Err(e) => r == Err::<(), ContextError>(e) && final(self)@ == old(self)@,
            },
    {
        self.edit(pubkey, edit_field, true)
    }
}

} // verus!
