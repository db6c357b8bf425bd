//! The rules of the claim token that pools mint to stakers: who may mint,
//! burn and reconfigure it, and how much one mint may create. The balances
//! themselves are kept by the host's fungible-token ledger.
use vstd::prelude::*;

verus! {

/// Why a claim-token request was rejected.
#[derive(Clone, Copy, Debug, PartialEq, Eq, Structural)]
pub enum TokenError {
    /// The caller may not reconfigure the token.
    CallerNotAllowed,
    /// Only the owner or the minter may mint, burn or unregister.
    AdminOrMinterOnly,
    /// A mint above the configured maximum.
    MintAmountExceedsMaximum,
}

/// The configuration of a claim token.
pub struct Contract {
    /// The token's own account.
    pub owner: String,
    pub decimals: u8,
    pub name: String,
    pub symbol: String,
    pub icon: Option<String>,
    /// The largest single mint, if any.
    pub max_mint: Option<u128>,
    /// The account besides the owner that may mint and burn.
    pub minter: Option<String>,
}

/// Whether `signer` may act as owner or minter of a token owned by `owner`.
/// Without a minter, nobody may, the owner included.
pub open spec fn owner_or_minter(owner: Seq<char>, minter: Option<String>, signer: Seq<char>) -> bool {
    match minter {
        Some(m) => signer == owner || signer == m@,
        None => false,
    }
}

impl Contract {
    /// A token owned by `owner` with the given display fields and limits.
    pub fn new(
        owner: String,
        decimals: u8,
        name: String,
        symbol: String,
        icon: Option<String>,
        max_mint: Option<u128>,
        minter: Option<String>,
    ) -> (r: Contract)
        ensures
            r == (Contract { owner, decimals, name, symbol, icon, max_mint, minter }),
    {
        Contract { owner, decimals, name, symbol, icon, max_mint, minter }
    }

    /// Whether `signer` is the owner or the minter; false where no minter is
    /// set.
    pub fn is_owner_or_minter(&self, signer: &String) -> (r: bool)
        ensures
            r == owner_or_minter(self.owner@, self.minter, signer@),
    {
        match &self.minter {
            Some(m) => *signer == self.owner || *signer == *m,
            None => false,
        }
    }

    /// Rejects a caller that is neither owner nor minter.
    pub fn assert_caller_allowed(&self, signer: &String) -> (r: Result<(), TokenError>)
        ensures
            r == (if owner_or_minter(self.owner@, self.minter, signer@) {
                Ok::<(), TokenError>(())
            } else {
                Err(TokenError::CallerNotAllowed)
            }),
    {
        if self.is_owner_or_minter(signer) {
            Ok(())
        } else {
            Err(TokenError::CallerNotAllowed)
        }
    }

    /// Renames the token.
    pub fn set_name(&mut self, signer: &String, name: String) -> (r: Result<(), TokenError>)
        ensures
            r is Ok == owner_or_minter(old(self).owner@, old(self).minter, signer@),
            r is Err ==> r == Err::<(), TokenError>(TokenError::CallerNotAllowed) && *final(self)
                == *old(self),
            r is Ok ==> *final(self) == (Contract { name, ..*old(self) }),
    {
        match self.assert_caller_allowed(signer) {
            Ok(()) => {
                self.name = name;
                Ok(())
            },
            Err(e) => Err(e),
        }
    }

    /// Replaces the token's icon.
    pub fn set_icon(&mut self, signer: &String, icon: Option<String>) -> (r: Result<(), TokenError>)
        ensures
            r is Ok == owner_or_minter(old(self).owner@, old(self).minter, signer@),
            r is Err ==> r == Err::<(), TokenError>(TokenError::CallerNotAllowed) && *final(self)
                == *old(self),
            r is Ok ==> *final(self) == (Contract { icon, ..*old(self) }),
    {
        match self.assert_caller_allowed(signer) {
            Ok(()) => {
                self.icon = icon;
                Ok(())
            },
            Err(e) => Err(e),
        }
    }

    /// Replaces the token's symbol.
    pub fn set_symbol(&mut self, signer: &String, symbol: String) -> (r: Result<(), TokenError>)
        ensures
            r is Ok == owner_or_minter(old(self).owner@, old(self).minter, signer@),
            r is Err ==> r == Err::<(), TokenError>(TokenError::CallerNotAllowed) && *final(self)
                == *old(self),
            r is Ok ==> *final(self) == (Contract { symbol, ..*old(self) }),
    {
        match self.assert_caller_allowed(signer) {
            Ok(()) => {
                self.symbol = symbol;
                Ok(())
            },
            Err(e) => Err(e),
        }
    }

    /// Replaces the largest single mint.
    pub fn set_max_mint(&mut self, signer: &String, max_mint: Option<u128>) -> (r: Result<(), TokenError>)
        ensures
            r is Ok == owner_or_minter(old(self).owner@, old(self).minter, signer@),
            r is Err ==> r == Err::<(), TokenError>(TokenError::CallerNotAllowed) && *final(self)
                == *old(self),
            r is Ok ==> *final(self) == (Contract { max_mint, ..*old(self) }),
    {
        match self.assert_caller_allowed(signer) {
            Ok(()) => {
                self.max_mint = max_mint;
                Ok(())
            },
            Err(e) => Err(e),
        }
    }

    /// Replaces the minter.
    pub fn set_minter(&mut self, signer: &String, minter: Option<String>) -> (r: Result<(), TokenError>)
        ensures
            r is Ok == owner_or_minter(old(self).owner@, old(self).minter, signer@),
            r is Err ==> r == Err::<(), TokenError>(TokenError::CallerNotAllowed) && *final(self)
                == *old(self),
            r is Ok ==> *final(self) == (Contract { minter, ..*old(self) }),
    {
        match self.assert_caller_allowed(signer) {
            Ok(()) => {
                self.minter = minter;
                Ok(())
            },
            Err(e) => Err(e),
        }
    }

    /// Decides a mint of `amount` by `signer`: rejected above the maximum
    /// mint, then unless `signer` is owner or minter.
    pub fn ft_mint(&self, signer: &String, amount: u128) -> (r: Result<(), TokenError>)
        ensures
            r == (match self.max_mint {
                Some(m) if amount > m => Err(TokenError::MintAmountExceedsMaximum),
                _ => if owner_or_minter(self.owner@, self.minter, signer@) {
                    Ok::<(), TokenError>(())
                } else {
                    Err(TokenError::AdminOrMinterOnly)
                },
            }),
    {
        if let Some(m) = self.max_mint {
            if amount > m {
                return Err(TokenError::MintAmountExceedsMaximum);
            }
        }
        if self.is_owner_or_minter(signer) {
            Ok(())
        } else {
            Err(TokenError::AdminOrMinterOnly)
        }
    }

    /// Decides a burn by `signer`: only the owner or the minter may burn.
    pub fn ft_burn(&self, signer: &String) -> (r: Result<(), TokenError>)
        ensures
            r == (if owner_or_minter(self.owner@, self.minter, signer@) {
                Ok::<(), TokenError>(())
            } else {
                Err(TokenError::AdminOrMinterOnly)
            }),
    {
        if self.is_owner_or_minter(signer) {
            Ok(())
        } else {
            Err(TokenError::AdminOrMinterOnly)
        }
    }

    /// Decides the removal of an account from the ledger by `signer`: only
    /// the owner or the minter may remove one.
    pub fn unregister_account(&self, signer: &String) -> (r: Result<(), TokenError>)
        ensures
            r == (if owner_or_minter(self.owner@, self.minter, signer@) {
                Ok::<(), TokenError>(())
            } else {
                Err(TokenError::AdminOrMinterOnly)
            }),
    {
        self.ft_burn(signer)
    }
}

} // verus!
