pub mod errors;
pub mod instructions;
pub mod key;
pub mod laws;
pub mod state;
pub mod token_account;

pub use errors::{DepositError, EscrowError};
pub use instructions::{deposit_nfts, withdraw_nft, TransferOrder};
pub use key::{key_eq, Key};
pub use state::{find_key, initialize_escrow, EscrowAccount};
