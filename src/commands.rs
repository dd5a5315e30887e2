//! Subcommands: which one a name selects, their help texts, and the
//! decisions of initialisation and key management.

use vstd::prelude::*;
use vstd::string::*;

use crate::cryptutil::{aeskey_new_from_password, argon2id_key, Argon2Param, ARGON2_MCOST, ARGON2_PCOST, ARGON2_TCOST};
use crate::ledger::{Config, CryptType};
use crate::util::str_eq;

verus! {

/// The subcommands.
#[derive(Debug, Clone, Copy, PartialEq, Eq)]
pub enum CommandType {
    Init,
    Key,
    Inbox,
    Crypt,
    TestFile,
}

/// The name that selects a subcommand.
pub open spec fn command_name(c: CommandType) -> Seq<char> {
    match c {
        CommandType::Init => "init"@,
        CommandType::Key => "key"@,
        CommandType::Inbox => "inbox"@,
        CommandType::Crypt => "crypt"@,
        CommandType::TestFile => "test-file"@,
    }
}

/// Why a command line was refused.
#[derive(Debug, Clone, Copy, PartialEq, Eq)]
pub enum CommandError {
    /// No subcommand has that name.
    SubcommandNotFound,
}

/// The subcommand named `name`, if any.
pub fn command_from_name(name: &str) -> (r: Option<CommandType>)
    ensures
        r is Some ==> name@ == command_name(r->Some_0),
        r is None ==> forall|c: CommandType| name@ != command_name(c),
{
    if str_eq(name, "init") {
        Some(CommandType::Init)
    } else if str_eq(name, "key") {
        Some(CommandType::Key)
    } else if str_eq(name, "inbox") {
        Some(CommandType::Inbox)
    } else if str_eq(name, "crypt") {
        Some(CommandType::Crypt)
    } else if str_eq(name, "test-file") {
        Some(CommandType::TestFile)
    } else {
        None
    }
}

/// Picks the subcommand that `argv[0]` names; `argv[1..]` are its own
/// arguments.
pub fn dispatch_subcommand(argv: &[String]) -> (r: Result<CommandType, CommandError>)
    requires
        argv@.len() > 0,
    ensures
        r is Ok ==> argv@[0]@ == command_name(r->Ok_0),
        r is Err ==> r == Err::<CommandType, CommandError>(CommandError::SubcommandNotFound)
            && forall|c: CommandType| argv@[0]@ != command_name(c),
{
    match command_from_name(argv[0].as_str()) {
        Some(c) => Ok(c),
        None => Err(CommandError::SubcommandNotFound),
    }
}

/// The list of subcommands with one line of description each.
pub open spec fn subcommands_help_text() -> Seq<char> {
    "init\n    Initialize directory as repository\nkey\n    Set encrypt/decrypt key\ninbox\n    Process new files in inbox/\ncrypt\n    Split and encrypt files in repo/\ntest-file\n    Create test file(s) into inbox/\n"@
}

/// The list of subcommands with one line of description each.
pub fn subcommands_help() -> (r: String)
    ensures
        r@ == subcommands_help_text(),
{
    "init\n    Initialize directory as repository\nkey\n    Set encrypt/decrypt key\ninbox\n    Process new files in inbox/\ncrypt\n    Split and encrypt files in repo/\ntest-file\n    Create test file(s) into inbox/\n".to_owned()
}

/// Applies the "ignore errors" switch to the outcome of a setup step.
pub fn with_force<E>(force: bool, res: Result<(), E>) -> (r: Result<(), E>)
    ensures
        force ==> r is Ok,
        !force ==> r == res,
{
    if force {
        Ok(())
    } else {
        res
    }
}

/// Why a directory cannot be initialised.
#[derive(Debug, Clone, Copy, PartialEq, Eq)]
pub enum InitError {
    /// It holds an entry whose name does not start with a dot.
    DirectoryNotEmpty,
}

/// A hidden entry: its name starts with a dot.
pub open spec fn is_hidden(name: Seq<char>) -> bool {
    name.len() > 0 && name[0] == '.'
}

/// Checks that a directory, given by the names of its entries, holds
/// nothing but hidden entries.
pub fn check_empty_dir(names: &[String]) -> (r: Result<(), InitError>)
    ensures
        r is Ok <==> forall|i: int| 0 <= i < names@.len() ==> is_hidden(#[trigger] names@[i]@),
        r is Err ==> r == Err::<(), InitError>(InitError::DirectoryNotEmpty),
{
    let mut i: usize = 0;
    while i < names.len()
        invariant
            i <= names@.len(),
            forall|j: int| 0 <= j < i ==> is_hidden(#[trigger] names@[j]@),
        decreases names@.len() - i,
    {
        let name = names[i].as_str();
        if name.unicode_len() == 0 || name.get_char(0) != '.' {
            return Err(InitError::DirectoryNotEmpty);
        }
        i = i + 1;
    }
    Ok(())
}

/// The kinds of encryption policy an operator can choose.
#[derive(Debug, Clone, Copy, PartialEq, Eq)]
pub enum CryptKind {
    PlainText,
    Aes256GcmArgon2,
}

/// The name that selects a policy kind.
pub open spec fn crypt_kind_name(k: CryptKind) -> Seq<char> {
    match k {
        CryptKind::PlainText => "PlainText"@,
        CryptKind::Aes256GcmArgon2 => "Aes256GcmArgon2"@,
    }
}

/// Why a key command was refused.
#[derive(Debug, Clone, Copy, PartialEq, Eq)]
pub enum KeyError {
    /// No policy kind has that name.
    InvalidCryptType,
}

/// What the key command is to do.
#[derive(Debug, Clone, Copy, PartialEq, Eq)]
pub enum KeyAction {
    /// Show the current policy; the ledger is not changed.
    ShowStatus,
    /// Switch to no encryption.
    SetPlainText,
    /// Ask for a passphrase and switch to AES-256-GCM with a new salt.
    NewAesKey,
}

/// The policy kind named `name`.
pub fn crypt_kind_from_name(name: &str) -> (r: Result<CryptKind, KeyError>)
    ensures
        r is Ok ==> name@ == crypt_kind_name(r->Ok_0),
        r is Err ==> r == Err::<CryptKind, KeyError>(KeyError::InvalidCryptType)
            && forall|k: CryptKind| name@ != crypt_kind_name(k),
{
    if str_eq(name, "PlainText") {
        Ok(CryptKind::PlainText)
    } else if str_eq(name, "Aes256GcmArgon2") {
        Ok(CryptKind::Aes256GcmArgon2)
    } else {
        Err(KeyError::InvalidCryptType)
    }
}

/// Decides what the key command does: with no type it shows the status,
/// with a type it sets up that policy.
pub fn process_key(ctype: Option<&str>) -> (r: Result<KeyAction, KeyError>)
    ensures
        ctype is None ==> r == Ok::<KeyAction, KeyError>(KeyAction::ShowStatus),
        ctype is Some ==> {
            let name = ctype->Some_0@;
            &&& name == crypt_kind_name(CryptKind::PlainText) ==> r == Ok::<KeyAction, KeyError>(
                KeyAction::SetPlainText,
            )
            &&& name == crypt_kind_name(CryptKind::Aes256GcmArgon2) ==> r == Ok::<KeyAction, KeyError>(
                KeyAction::NewAesKey,
            )
            &&& (forall|k: CryptKind| name != crypt_kind_name(k)) ==> r == Err::<KeyAction, KeyError>(
                KeyError::InvalidCryptType,
            )
        },
{
    match ctype {
        None => Ok(KeyAction::ShowStatus),
        Some(name) => {
            proof {
                reveal_strlit("PlainText");
                reveal_strlit("Aes256GcmArgon2");
                assert("PlainText"@.len() == 9);
                assert("Aes256GcmArgon2"@.len() == 15);
            }
            match crypt_kind_from_name(name) {
                Ok(CryptKind::PlainText) => Ok(KeyAction::SetPlainText),
                Ok(CryptKind::Aes256GcmArgon2) => Ok(KeyAction::NewAesKey),
                Err(e) => Err(e),
            }
        },
    }
}

/// Switches the ledger to no encryption.
pub fn genkey_plaintext(config: &mut Config)
    ensures
        final(config).crypt == CryptType::PlainText,
        final(config).system == old(config).system,
        final(config).repository == old(config).repository,
{
    config.crypt = CryptType::PlainText;
}

/// Switches the ledger to AES-256-GCM with a fresh salt, the default
/// Argon2 costs, and the key derived from `pwd` held in memory.
pub fn genkey_aes(config: &mut Config, pwd: &str)
    requires
        pwd.spec_bytes().len() <= 0xFFFF_FFFF,
    ensures
        final(config).system == old(config).system,
        final(config).repository == old(config).repository,
        final(config).crypt matches CryptType::Aes256GcmArgon2 { key: Some(k), param }
            && param.m_cost == ARGON2_MCOST && param.t_cost == ARGON2_TCOST && param.p_cost
            == ARGON2_PCOST && k@ == argon2id_key(pwd@, param.salt@, param.m_cost, param.t_cost, param.p_cost),
{
    let (salt, m_cost, t_cost, p_cost, key) = aeskey_new_from_password(pwd);
    config.crypt = CryptType::Aes256GcmArgon2 { key: Some(key), param: Argon2Param { salt, m_cost, t_cost, p_cost } };
}

/// The list of policy kinds with a description of each.
pub open spec fn crypt_type_help_text() -> Seq<char> {
    "Supported types:\nPlainText\n  No encryption\n  Crypt runs leave the repository as it is.\nAes256GcmArgon2\n  AES-256-GCM with a key derived from a passphrase by Argon2id\n  The passphrase is asked for; the key is never written to the ledger.\n"@
}

/// The list of policy kinds with a description of each.
pub fn crypt_type_help() -> (r: String)
    ensures
        r@ == crypt_type_help_text(),
{
    "Supported types:\nPlainText\n  No encryption\n  Crypt runs leave the repository as it is.\nAes256GcmArgon2\n  AES-256-GCM with a key derived from a passphrase by Argon2id\n  The passphrase is asked for; the key is never written to the ledger.\n".to_owned()
}

} // verus!
