use vstd::prelude::*;
use crate::item::Item;

verus! {

/// The identifier of an account or of a program: a key of 32 bytes.
#[derive(Clone, Copy, Debug, PartialEq, Eq)]
pub struct Pubkey {
    pub bytes: [u8; 32],
}

impl View for Pubkey {
    type V = Seq<u8>;

    open spec fn view(&self) -> Seq<u8> {
        self.bytes@
    }
}

/// The base58 text under which a key of 32 bytes is displayed.
pub uninterp spec fn base58_text(key: Seq<u8>) -> Seq<char>;

/// Whether `text` is the address of one of the three programs that every
/// network has: the upgradeable loader, the token program, the system program.
pub open spec fn is_system_text(text: Seq<char>) -> bool {
    ||| text == "BPFLoaderUpgradeab1e11111111111111111111111"@
    ||| text == "TokenkegQfeZyiNwAJbNbGKPFXCWuBvf9Ss623VQ5DA"@
    ||| text == "11111111111111111111111111111111"@
}

/// Whether `text` is the address of a program that is always present.
pub fn is_system_address(text: &str) -> (r: bool)
    ensures
        r == is_system_text(text@),
{
    let owned = text.to_owned();
    let loader = "BPFLoaderUpgradeab1e11111111111111111111111".to_owned();
    let token = "TokenkegQfeZyiNwAJbNbGKPFXCWuBvf9Ss623VQ5DA".to_owned();
    let system = "11111111111111111111111111111111".to_owned();
    owned == loader || owned == token || owned == system
}

impl Pubkey {
    /// The key made of these 32 bytes.
    pub fn new(bytes: [u8; 32]) -> (r: Pubkey)
        ensures
            r.bytes == bytes,
            r@ == bytes@,
    {
        Pubkey { bytes }
    }

    /// Calls `solana_sdk::pubkey::Pubkey::new_from_array`, which keeps the
    /// bytes as they are, and `to_string` on the result, which writes them in
    /// base58. The text depends on the bytes alone; it is known here only
    /// under the name `base58_text`.
    #[verifier::external_body]
    pub(crate) fn to_base58(&self) -> (r: String)
        ensures
            r@ == base58_text(self@),
    {
        solana_sdk::pubkey::Pubkey::new_from_array(self.bytes).to_string()
    }

    /// The address of this key as base58 text.
    pub fn address(&self) -> (r: String)
        ensures
            r@ == base58_text(self@),
    {
        self.to_base58()
    }

    /// Whether this key names a program that is always present and is
    /// therefore never stored nor followed.
    pub fn is_system_program(&self) -> (r: bool)
        ensures
            r == is_system_text(base58_text(self@)),
    {
        let text = self.to_base58();
        is_system_address(text.as_str())
    }
}

impl Item for Pubkey {
    fn same(&self, other: &Self) -> (r: bool) {
        let mut i: usize = 0;
        while i < 32
            invariant
                i <= 32,
                forall|j: int| 0 <= j < i ==> self.bytes@[j] == other.bytes@[j],
            decreases 32 - i,
        {
            if self.bytes[i] != other.bytes[i] {
                return false;
            }
            i += 1;
        }
        proof {
            assert(self.bytes@ =~= other.bytes@);
        }
        true
    }

    fn duplicate(&self) -> (r: Self) {
        *self
    }
}

} // verus!
