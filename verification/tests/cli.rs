use monad_monitor::cli::Cli;
use monad_monitor::pubkey::HexError;
use std::path::PathBuf;

fn cli(self_pubkey: Option<&str>) -> Cli {
    Cli {
        ledger_path: PathBuf::from("/monad/ledger"),
        forkpoint_path: PathBuf::from("/monad/config/forkpoint/forkpoint.toml"),
        peers_path: PathBuf::from("/monad/config/peers.toml"),
        validators_path: PathBuf::from("/monad/config/validators/validators.toml"),
        self_pubkey: self_pubkey.map(String::from),
    }
}

#[test]
fn own_key_is_optional() {
    assert!(cli(None).self_pubkey_bytes().is_none());
    assert_eq!(cli(Some("0x0203")).self_pubkey_bytes().unwrap().unwrap(), vec![2, 3]);
    assert!(matches!(cli(Some("x")).self_pubkey_bytes(), Some(Err(HexError::OddLength))));
}
