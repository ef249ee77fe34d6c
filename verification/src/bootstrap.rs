//! The ways a node can bootstrap.
use vstd::prelude::*;

verus! {

#[derive(PartialEq, Eq, Structural, Clone, Copy, Debug)]
pub enum BootstrapMode {
    Legacy,
    Lazy,
    WalletLazy,
    Ascending,
}

/// The name of a bootstrap mode.
pub open spec fn bootstrap_mode_name(mode: BootstrapMode) -> Seq<char> {
    match mode {
        BootstrapMode::Legacy => "legacy"@,
        BootstrapMode::Lazy => "lazy"@,
        BootstrapMode::WalletLazy => "wallet_lazy"@,
        BootstrapMode::Ascending => "ascending"@,
    }
}

impl BootstrapMode {
    pub fn as_str(&self) -> (r: &'static str)
        ensures
            r@ == bootstrap_mode_name(*self),
    {
        match self {
            BootstrapMode::Legacy => "legacy",
            BootstrapMode::Lazy => "lazy",
            BootstrapMode::WalletLazy => "wallet_lazy",
            BootstrapMode::Ascending => "ascending",
        }
    }
}

} // verus!
