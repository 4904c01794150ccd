use vstd::prelude::*;
use crate::item::{duplicate_list, models, Item};
use crate::pubkey::Pubkey;

verus! {

/// One change to one field of a record.
#[derive(Clone, Debug, PartialEq, Eq)]
pub enum EditField {
    /// A new owner.
    Owner(Pubkey),
    /// A new upgrade authority, for a program data account.
    UpgradeAuthority(Pubkey),
    /// A new balance.
    Lamports(u64),
    /// New structured data, held as the text of a JSON document.
    Data(String),
}

/// What an edit holds.
pub enum EditModel {
    Owner(Seq<u8>),
    UpgradeAuthority(Seq<u8>),
    Lamports(u64),
    Data(Seq<char>),
}

impl View for EditField {
    type V = EditModel;

    open spec fn view(&self) -> EditModel {
        match *self {
            EditField::Owner(k) => EditModel::Owner(k@),
            EditField::UpgradeAuthority(k) => EditModel::UpgradeAuthority(k@),
            EditField::Lamports(n) => EditModel::Lamports(n),
            EditField::Data(text) => EditModel::Data(text@),
        }
    }
}

impl Item for EditField {
    fn same(&self, other: &Self) -> (r: bool) {
        match (self, other) {
            (EditField::Owner(a), EditField::Owner(b)) => a.same(b),
            (EditField::UpgradeAuthority(a), EditField::UpgradeAuthority(b)) => a.same(b),
            (EditField::Lamports(a), EditField::Lamports(b)) => *a == *b,
            (EditField::Data(a), EditField::Data(b)) => a.same(b),
            _ => false,
        }
    }

    fn duplicate(&self) -> (r: Self) {
        match self {
            EditField::Owner(k) => EditField::Owner(*k),
            EditField::UpgradeAuthority(k) => EditField::UpgradeAuthority(*k),
            EditField::Lamports(n) => EditField::Lamports(*n),
            EditField::Data(text) => EditField::Data(text.duplicate()),
        }
    }
}

/// The edits recorded for one record, in the order in which they apply.
#[derive(Clone, Debug, PartialEq, Eq)]
pub struct Override {
    pub pubkey: Pubkey,
    pub edit_fields: Vec<EditField>,
}

/// What an override holds.
pub struct OverrideModel {
    pub pubkey: Seq<u8>,
    pub edit_fields: Seq<EditModel>,
}

impl View for Override {
    type V = OverrideModel;

    open spec fn view(&self) -> OverrideModel {
        OverrideModel { pubkey: self.pubkey@, edit_fields: models(self.edit_fields@) }
    }
}

impl Override {
    /// The override that holds one edit of the record `pubkey`.
    pub fn new(pubkey: Pubkey, edit_field: EditField) -> (r: Override)
        ensures
            r@ == (OverrideModel { pubkey: pubkey@, edit_fields: seq![edit_field@] }),
            r.pubkey == pubkey,
            r.edit_fields@ == seq![edit_field],
    {
        let mut edit_fields: Vec<EditField> = Vec::new();
        edit_fields.push(edit_field);
        proof {
            assert(models(edit_fields@) =~= seq![edit_field@]);
            assert(edit_fields@ =~= seq![edit_field]);
        }
        Override { pubkey, edit_fields }
    }
}

/// Whether two lists hold elements with the same views in the same order.
pub fn same_list<T: Item>(a: &Vec<T>, b: &Vec<T>) -> (r: bool)
    ensures
        r == (models(a@) == models(b@)),
{
    if a.len() != b.len() {
        assert(models(a@).len() != models(b@).len());
        return false;
    }
    let mut i: usize = 0;
    while i < a.len()
        invariant
            i <= a.len(),
            a.len() == b.len(),
            forall|j: int| 0 <= j < i ==> models(a@)[j] == models(b@)[j],
        decreases a.len() - i,
    {
        if !a[i].same(&b[i]) {
            assert(models(a@)[i as int] != models(b@)[i as int]);
            return false;
        }
        i += 1;
    }
    proof {
        assert(models(a@) =~= models(b@));
    }
    true
}

impl Item for Override {
    fn same(&self, other: &Self) -> (r: bool) {
        self.pubkey.same(&other.pubkey) && same_list(&self.edit_fields, &other.edit_fields)
    }

    fn duplicate(&self) -> (r: Self) {
        Override { pubkey: self.pubkey, edit_fields: duplicate_list(&self.edit_fields) }
    }
}

} // verus!
