use vstd::prelude::*;
use crate::context::{text_of, ContextModel, Valid8Context};
use crate::error::ContextError;
use crate::item::{merge_unique, merged, models};
use crate::overrides::Override;

verus! {

/// `text` with every match of `pattern` replaced by `with`.
pub uninterp spec fn replaced(text: Seq<char>, pattern: Seq<char>, with: Seq<char>) -> Seq<char>;

/// Calls `str::replace`, which replaces all matches of a pattern in a string
/// with another string. The result depends on the three texts alone; it is
/// known here only under the name `replaced`.
#[verifier::external_body]
fn replace_all(text: &str, pattern: &str, with: &str) -> (r: String)
    ensures
        r@ == replaced(text@, pattern@, with@),
{
    text.replace(pattern, with)
}

/// The name of a configuration without the file extension `.json`.
pub open spec fn config_stem(name: Seq<char>) -> Seq<char> {
    replaced(name, ".json"@, ""@)
}

/// The name of the project that a reference to a configuration stands for.
pub fn project_of(name: &str) -> (r: String)
    ensures
        r@ == config_stem(name@),
{
    replace_all(name, ".json", "")
}

/// The accumulator after one parent was merged into it: of the parent's
/// accounts, programs, interface descriptions and networks it gains those
/// that it does not hold yet; of the parent's journal only where it has a
/// journal itself. Its name and its own parent stay.
pub open spec fn merged_context(acc: ContextModel, parent: ContextModel) -> ContextModel {
    ContextModel {
        project_name: acc.project_name,
        networks: merged(acc.networks, parent.networks),
        programs: merged(acc.programs, parent.programs),
        accounts: merged(acc.accounts, parent.accounts),
        overrides: match (acc.overrides, parent.overrides) {
            (Some(own), Some(other)) => Some(merged(own, other)),
            _ => acc.overrides,
        },
        idls: merged(acc.idls, parent.idls),
        compose: acc.compose,
    }
}

/// The first of `configs` whose project is named `stem`.
pub open spec fn lookup(configs: Seq<ContextModel>, stem: Seq<char>) -> Option<ContextModel>
    decreases configs.len(),
{
    if configs.len() == 0 {
        None
    } else if configs[0].project_name == stem {
        Some(configs[0])
    } else {
        lookup(configs.drop_first(), stem)
    }
}

/// The number of parents that one composition may follow.
pub const MAX_COMPOSE_DEPTH: u8 = 20;

/// What following the chain of parents gives, from an accumulator `acc` that
/// has taken in `count` parents and is to take in the configuration named
/// `next`: the flattened context with the number of parents merged, or the
/// error that ended the walk.
pub open spec fn composed(
    acc: ContextModel,
    next: Option<Seq<char>>,
    configs: Seq<ContextModel>,
    count: nat,
) -> Result<(ContextModel, nat), ContextError>
    decreases 20 - count,
{
    match next {
        None => Ok((acc, count)),
        Some(name) => if count >= 20 {
            Err(ContextError::ComposeDepthExceeded)
        } else {
            match lookup(configs, config_stem(name)) {
                None => Err(ContextError::NotFound),
                Some(parent) => composed(
                    merged_context(acc, parent),
                    parent.compose,
                    configs,
                    count + 1,
                ),
            }
        },
    }
}

/// A composition that succeeds has merged at most twenty parents.
pub proof fn lemma_composed_bound(
    acc: ContextModel,
    next: Option<Seq<char>>,
    configs: Seq<ContextModel>,
    count: nat,
)
    requires
        count <= 20,
    ensures
        composed(acc, next, configs, count) is Ok ==> count <= composed(
            acc,
            next,
            configs,
            count,
        )->Ok_0.1 <= 20,
    decreases 20 - count,
{
    if next is Some && count < 20 {
        let found = lookup(configs, config_stem(next->Some_0));
        if found is Some {
            let parent = found->Some_0;
            lemma_composed_bound(merged_context(acc, parent), parent.compose, configs, count + 1);
        }
    }
}

/// What `lookup` finds is one of the configurations.
pub proof fn lemma_lookup_member(configs: Seq<ContextModel>, stem: Seq<char>)
    requires
        lookup(configs, stem) is Some,
    ensures
        configs.contains(lookup(configs, stem)->Some_0),
    decreases configs.len(),
{
    if configs[0].project_name == stem {
        assert(configs[0] == lookup(configs, stem)->Some_0);
    } else {
        lemma_lookup_member(configs.drop_first(), stem);
        let found = lookup(configs, stem)->Some_0;
        let i = choose|i: int| 0 <= i < configs.drop_first().len() && configs.drop_first()[i] == found;
        assert(configs[i + 1] == found);
    }
}

/// Whether every configuration names a parent that is among `configs`, so
/// that no walk through them ever ends.
pub open spec fn endless(configs: Seq<ContextModel>) -> bool {
    forall|i: int|
        0 <= i < configs.len() ==> (#[trigger] configs[i]).compose is Some && lookup(
            configs,
            config_stem(configs[i].compose->Some_0),
        ) is Some
}

/// A chain that never ends, as one that names itself or runs in a circle
/// does, is cut off with `ComposeDepthExceeded`.
pub proof fn lemma_endless_chain_is_cut(
    acc: ContextModel,
    name: Seq<char>,
    configs: Seq<ContextModel>,
    count: nat,
)
    requires
        count <= 20,
        endless(configs),
        lookup(configs, config_stem(name)) is Some,
    ensures
        composed(acc, Some(name), configs, count) == Err::<(ContextModel, nat), ContextError>(
            ContextError::ComposeDepthExceeded,
        ),
    decreases 20 - count,
{
    if count < 20 {
        let parent = lookup(configs, config_stem(name))->Some_0;
        lemma_lookup_member(configs, config_stem(name));
        let i = choose|i: int| 0 <= i < configs.len() && configs[i] == parent;
        assert(configs[i].compose is Some);
        lemma_endless_chain_is_cut(
            merged_context(acc, parent),
            parent.compose->Some_0,
            configs,
            count + 1,
        );
    }
}

/// A parent's record that the accumulator holds already, equal in every
/// field, is not taken in a second time; one that it does not hold is
/// appended. Every record of either is among the merged accounts, and where
/// the accumulator held none twice, neither does the result.
pub proof fn lemma_merge_deduplicates(acc: ContextModel, parent: ContextModel)
    ensures
        ({
            let m = merged_context(acc, parent);
            &&& m.accounts.take(acc.accounts.len() as int) == acc.accounts
            &&& forall|x: crate::account::AccountModel|
                m.accounts.contains(x) <==> acc.accounts.contains(x) || parent.accounts.contains(x)
            &&& acc.accounts.no_duplicates() ==> m.accounts.no_duplicates()
            &&& parent.accounts.len() == 1 ==> m.accounts == if acc.accounts.contains(
                parent.accounts[0],
            ) {
                acc.accounts
            } else {
                acc.accounts.push(parent.accounts[0])
            }
        }),
{
    crate::item::lemma_merged_extends(acc.accounts, parent.accounts);
    assert forall|x: crate::account::AccountModel|
        merged(acc.accounts, parent.accounts).contains(x) <==> acc.accounts.contains(x)
            || parent.accounts.contains(x) by {
        crate::item::lemma_merged_contains(acc.accounts, parent.accounts, x);
    }
    if acc.accounts.no_duplicates() {
        crate::item::lemma_merged_no_duplicates(acc.accounts, parent.accounts);
    }
    if parent.accounts.len() == 1 {
        assert(parent.accounts.drop_last().len() == 0);
        assert(merged(acc.accounts, parent.accounts.drop_last()) == acc.accounts);
    }
}

/// The place of the first of `configs` whose project is named `stem`.
pub fn find_config(configs: &Vec<Valid8Context>, stem: &String) -> (r: Option<usize>)
    ensures
        match r {
            Some(i) => i < configs.len() && lookup(models(configs@), stem@) == Some(configs[i as int]@),
            None => lookup(models(configs@), stem@) is None,
        },
{
    let ghost all = models(configs@);
    let mut i: usize = 0;
    proof {
        assert(all.skip(0) =~= all);
    }
    while i < configs.len()
        invariant
            i <= configs.len(),
            all == models(configs@),
            lookup(all, stem@) == lookup(all.skip(i as int), stem@),
        decreases configs.len() - i,
    {
        proof {
            assert(all.skip(i as int)[0] == configs[i as int]@);
            assert(all.skip(i as int).drop_first() =~= all.skip(i as int + 1));
        }
        if configs[i].project_name == *stem {
            return Some(i);
        }
        i += 1;
    }
    proof {
        assert(all.skip(all.len() as int).len() == 0);
    }
    None
}

impl Valid8Context {
    /// Merges one parent into this context.
    pub fn merge_parent(&mut self, parent: &Valid8Context)
        ensures
            final(self)@ == merged_context(old(self)@, parent@),
    {
        merge_unique(&mut self.accounts, &parent.accounts);
        merge_unique(&mut self.programs, &parent.programs);
        merge_unique(&mut self.idls, &parent.idls);
        merge_unique(&mut self.networks, &parent.networks);
        match &parent.overrides {
            Some(other) => {
                match self.overrides.take() {
                    Some(own) => {
                        let mut own: Vec<Override> = own;
                        merge_unique(&mut own, other);
                        self.overrides = Some(own);
                    },
                    None => {},
                }
            },
            None => {},
        }
    }

    /// Flattens the chain of parents of this context. Each parent is looked
    /// up by its name among `configs`; the walk ends where a configuration
    /// names no parent, and is cut off with `ComposeDepthExceeded` before a
    /// twenty-first parent would be taken in. Gives the flattened context and
    /// the number of parents merged.
    pub fn try_compose(&self, configs: &Vec<Valid8Context>) -> (r: Result<
        (Valid8Context, u8),
        ContextError,
    >)
        ensures
            match composed(self@, self@.compose, models(configs@), 0) {
                Ok((m, n)) => r is Ok && r->Ok_0.0@ == m && r->Ok_0.1 == n,
                Err(e) => r is Err && r->Err_0 == e,
            },
    {
        let mut acc = self.duplicate();
        let mut next: Option<String> = match &self.compose {
            Some(name) => Some(name.clone()),
            None => None,
        };
        let mut count: u8 = 0;
        loop
            invariant
                count <= 20,
                composed(self@, self@.compose, models(configs@), 0) == composed(
                    acc@,
                    text_of(next),
                    models(configs@),
                    count as nat,
                ),
            decreases 20 - count,
        {
            let name = match next {
                Some(name) => name,
                None => {
                    return Ok((acc, count));
                },
            };
            if count >= MAX_COMPOSE_DEPTH {
                return Err(ContextError::ComposeDepthExceeded);
            }
            let stem = project_of(name.as_str());
            let i = match find_config(configs, &stem) {
                Some(i) => i,
                None => {
                    return Err(ContextError::NotFound);
                },
            };
            acc.merge_parent(&configs[i]);
            next = match &configs[i].compose {
                Some(name) => Some(name.clone()),
                None => None,
            };
            count += 1;
        }
    }
}

} // verus!
