//! The settings of the monitor.
use crate::pubkey::{
    decode_pubkey, is_hex_decoding, law_hex_decoding_is_unique, without_marks, HexError,
};
use std::path::PathBuf;
use vstd::prelude::*;
use vstd::utf8::encode_utf8;

verus! {

/// A path of the file system.
#[verifier::external_type_specification]
#[verifier::external_body]
pub struct ExPathBuf(PathBuf);

/// Where the monitor finds its files, and which validator it runs beside.
#[derive(Debug)]
pub struct Cli {
    pub ledger_path: PathBuf,
    pub forkpoint_path: PathBuf,
    pub peers_path: PathBuf,
    pub validators_path: PathBuf,
    /// The hex-encoded compressed secp256k1 pubkey of this node's own validator, used to report
    /// the stake that would go offline if this validator turned off.
    pub self_pubkey: Option<String>,
}

impl Cli {
    /// The bytes of this node's public key, if one was given.
    pub fn self_pubkey_bytes(&self) -> (decoded: Option<Result<Vec<u8>, HexError>>)
        ensures
            match self.self_pubkey {
                Some(hex_str) => decoded matches Some(result) && is_hex_decoding(
                    without_marks(encode_utf8(hex_str@)),
                    result,
                ),
                None => decoded is None,
            },
    {
        match &self.self_pubkey {
            Some(hex_str) => Some(decode_pubkey(hex_str.as_str())),
            None => None,
        }
    }
}

/// The key of the settings is decoded as it stands there, and there is none if none was given.
pub proof fn law_key_of_the_settings(
    cli: &Cli,
    text: &str,
    decoded: Option<Result<Vec<u8>, HexError>>,
    direct: Result<Vec<u8>, HexError>,
)
    requires
        call_ensures(Cli::self_pubkey_bytes, (cli,), decoded),
        call_ensures(decode_pubkey, (text,), direct),
    ensures
        decoded is Some <==> cli.self_pubkey is Some,
        cli.self_pubkey is Some && cli.self_pubkey->0@ == text@ ==> {
            let result = decoded->0;
            &&& result is Ok <==> direct is Ok
            &&& result is Ok ==> result->Ok_0@ == direct->Ok_0@
            &&& result is Err ==> result->Err_0 == direct->Err_0
        },
{
    if cli.self_pubkey is Some && cli.self_pubkey->0@ == text@ {
        law_hex_decoding_is_unique(without_marks(encode_utf8(text@)), decoded->0, direct);
    }
}

} // verus!
