use bkupman::commands::{
    check_empty_dir, command_from_name, crypt_kind_from_name, crypt_type_help, dispatch_subcommand,
    genkey_aes, genkey_plaintext, process_key, subcommands_help, with_force, CommandError,
    CommandType, CryptKind, InitError, KeyAction, KeyError,
};
use bkupman::cryptutil::{aeskey_from_password, Argon2Param};
use bkupman::inbox::{
    check_sidecar, ingest_record, plan_ingest, verify_payload, IngestError,
};
use bkupman::ledger::{
    check_schema_version, LoadError, Config, CryptInfo, CryptType, Repository, RepositoryFile, System, CONFIG_VERSION,
};

fn file(name: &str) -> RepositoryFile {
    RepositoryFile { name: name.to_string(), md5name: format!("{name}.md5sum"), crypt: None }
}

fn names(repo: &Repository, tag: &str) -> Vec<String> {
    let e = repo.entries.iter().find(|e| e.tag == tag).unwrap();
    e.versions.iter().map(|f| f.name.clone()).collect()
}

fn info() -> CryptInfo {
    CryptInfo { crypt: CryptType::PlainText, total_size: 10, fragment_size: 4 }
}

#[test]
fn versions_are_kept_newest_first_without_duplicates() {
    let mut repo = Repository::new();
    repo.insert_version("db", file("db_20240102.sql"));
    repo.insert_version("db", file("db_20240101.sql"));
    repo.insert_version("db", file("db_20240103.sql"));
    repo.insert_version("web", file("web_20240101.tar"));
    repo.insert_version("db", file("db_20240102.sql"));
    assert_eq!(names(&repo, "db"), ["db_20240103.sql", "db_20240102.sql", "db_20240101.sql"]);
    assert_eq!(names(&repo, "web"), ["web_20240101.tar"]);
    assert_eq!(repo.entries.len(), 2);
}

#[test]
fn pending_and_marking() {
    let mut repo = Repository::new();
    repo.insert_version("a", file("a_1.bin"));
    repo.insert_version("b", file("b_1.bin"));
    let pending = repo.pending_crypt();
    assert_eq!(pending.len(), 2);
    assert!(repo.mark_latest_encrypted("a", info()));
    assert!(!repo.mark_latest_encrypted("zzz", info()));
    let pending = repo.pending_crypt();
    assert_eq!(pending.len(), 1);
    assert_eq!(pending[0].0, "b");
    assert_eq!(pending[0].1.name, "b_1.bin");
}

#[test]
fn second_crypt_run_selects_nothing() {
    let mut repo = Repository::new();
    repo.insert_version("a", file("a_1.bin"));
    repo.insert_version("b", file("b_1.bin"));
    let marks: Vec<(String, CryptInfo)> =
        repo.pending_crypt().into_iter().map(|(t, _)| (t, info())).collect();
    repo.fold_crypt(&marks);
    assert!(repo.pending_crypt().is_empty());
    // a newer plain version selects the tag again, history stays encrypted
    repo.insert_version("a", file("a_2.bin"));
    let pending = repo.pending_crypt();
    assert_eq!(pending.len(), 1);
    assert_eq!(pending[0].1.name, "a_2.bin");
    let a = repo.entries.iter().find(|e| e.tag == "a").unwrap();
    assert_eq!(a.versions[1].crypt, Some(info()));
}

// RFC 1321 test suite: MD5("abc")
const ABC_MD5: &str = "900150983cd24fb0d6963f7d28e17f72";

#[test]
fn ingestion_of_a_verified_payload() {
    let content = b"abc".to_vec();
    let plan = plan_ingest("report-20240601.txt").unwrap().unwrap();
    assert_eq!(plan.tag, "report");
    assert_eq!(plan.stored_name, "report_20240601.txt");
    assert_eq!(plan.stored_sidecar, "report_20240601.txt.md5sum");
    assert_eq!(plan.source_sidecar, "report-20240601.txt.md5sum");
    let stored_digest = verify_payload(&format!("{ABC_MD5}  report-20240601.txt\n"), &content).unwrap();
    assert_eq!(stored_digest, ABC_MD5);
    let mut config = Config::new_at("now".to_string());
    config.repository.fold_inbox(&vec![ingest_record(&plan)]);
    assert_eq!(config.repository.entries.len(), 1);
    assert_eq!(names(&config.repository, "report"), ["report_20240601.txt"]);
    assert_eq!(config.repository.entries[0].versions[0].md5name, "report_20240601.txt.md5sum");
    assert_eq!(config.repository.entries[0].versions[0].crypt, None);
}

#[test]
fn ingestion_integrity_failure_leaves_ledger_alone() {
    let content = b"abc".to_vec();
    let wrong = "d41d8cd98f00b204e9800998ecf8427e";
    assert_eq!(verify_payload(wrong, &content), Err(IngestError::IntegrityMismatch));
    assert_eq!(verify_payload("not a digest", &content), Err(IngestError::BadSidecar));
    let config = Config::new_at("now".to_string());
    assert!(config.repository.entries.is_empty());
}

#[test]
fn md5_of_known_input() {
    let abc = [
        0x90, 0x01, 0x50, 0x98, 0x3c, 0xd2, 0x4f, 0xb0, 0xd6, 0x96, 0x3f, 0x7d, 0x28, 0xe1, 0x7f,
        0x72,
    ];
    assert_eq!(verify_payload(ABC_MD5, b"abc").unwrap(), ABC_MD5);
    assert_eq!(
        verify_payload("d41d8cd98f00b204e9800998ecf8427e", b"").unwrap(),
        "d41d8cd98f00b204e9800998ecf8427e"
    );
    assert_eq!(
        check_sidecar("900150983CD24FB0D6963F7D28E17F72  abc", &abc).unwrap(),
        "900150983CD24FB0D6963F7D28E17F72"
    );
    assert_eq!(
        check_sidecar("d41d8cd98f00b204e9800998ecf8427e", &abc),
        Err(IngestError::IntegrityMismatch)
    );
}

#[test]
fn sidecars_and_bad_names_in_the_inbox() {
    assert!(plan_ingest("report-20240601.txt.md5sum").unwrap().is_none());
    assert_eq!(plan_ingest("file7").err(), Some(IngestError::InvalidFileName));
    assert_eq!(plan_ingest("----20240101.tar.bz2").err(), Some(IngestError::InvalidFileName));
}

#[test]
fn subcommand_selection() {
    let argv = vec!["inbox".to_string(), "-h".to_string()];
    assert_eq!(dispatch_subcommand(&argv), Ok(CommandType::Inbox));
    assert_eq!(dispatch_subcommand(&["nope".to_string()]), Err(CommandError::SubcommandNotFound));
    assert_eq!(command_from_name("test-file"), Some(CommandType::TestFile));
    assert_eq!(command_from_name("crypt"), Some(CommandType::Crypt));
    assert!(subcommands_help().starts_with("init\n    Initialize directory as repository\nkey\n"));
}

#[test]
fn force_and_empty_directory() {
    assert_eq!(with_force(true, Err::<(), InitError>(InitError::DirectoryNotEmpty)), Ok(()));
    assert_eq!(with_force(false, Err::<(), InitError>(InitError::DirectoryNotEmpty)), Err(InitError::DirectoryNotEmpty));
    assert_eq!(check_empty_dir(&[".git".to_string(), ".hidden".to_string()]), Ok(()));
    assert_eq!(check_empty_dir(&[".git".to_string(), "inbox".to_string()]), Err(InitError::DirectoryNotEmpty));
    assert_eq!(check_empty_dir(&[]), Ok(()));
}

#[test]
fn key_management() {
    assert_eq!(process_key(None), Ok(KeyAction::ShowStatus));
    assert_eq!(process_key(Some("PlainText")), Ok(KeyAction::SetPlainText));
    assert_eq!(process_key(Some("Aes256GcmArgon2")), Ok(KeyAction::NewAesKey));
    assert_eq!(process_key(Some("Rot13")), Err(KeyError::InvalidCryptType));
    assert_eq!(crypt_kind_from_name("PlainText"), Ok(CryptKind::PlainText));
    assert!(crypt_type_help().starts_with("Supported types:\nPlainText\n"));

    let mut config = Config::new_at("t0".to_string());
    genkey_aes(&mut config, "secret");
    let (key, param) = match config.crypt {
        CryptType::Aes256GcmArgon2 { key: Some(k), param } => (k, param),
        _ => panic!("expected an AES policy with a key"),
    };
    let again = aeskey_from_password(param.salt, param.m_cost, param.t_cost, param.p_cost, "secret").unwrap();
    assert_eq!(key, again);
    let locked = config.crypt.without_key();
    assert_eq!(locked, CryptType::Aes256GcmArgon2 { key: None, param });
    assert_eq!(locked.unlock("secret").unwrap(), config.crypt);
    assert!(locked.describe().ends_with("key   : NODATA (passphrase needed)"));
    genkey_plaintext(&mut config);
    assert_eq!(config.crypt, CryptType::PlainText);
    assert_eq!(config.crypt.describe(), "PlainText (no encryption)");
}

#[test]
fn describe_aes_policy() {
    let param = Argon2Param { salt: [0x0f; 16], m_cost: 19456, t_cost: 2, p_cost: 1 };
    let c = CryptType::Aes256GcmArgon2 { key: None, param };
    assert_eq!(
        c.describe(),
        "AES key derived from passphrase by Argon2\nsalt  : 0f0f0f0f0f0f0f0f0f0f0f0f0f0f0f0f\nm_cost: 19456\nt_cost: 2\np_cost: 1\nkey   : NODATA (passphrase needed)"
    );
}

#[test]
fn system_record() {
    let mut s = System::new_at("t0".to_string());
    assert_eq!(s.version, CONFIG_VERSION);
    s.touch_at("t1".to_string());
    assert_eq!(s.updated, "t1");
    let d = System::default();
    assert_eq!(d.version, CONFIG_VERSION);
}

#[test]
fn loading_checks_schema_and_fragment_size() {
    assert_eq!(check_schema_version(CONFIG_VERSION), Ok(()));
    assert_eq!(check_schema_version(CONFIG_VERSION + 1), Err(LoadError::UnsupportedVersion));
    let mut repo = Repository::new();
    let mut bad = file("a_1.bin");
    bad.crypt = Some(CryptInfo { crypt: CryptType::PlainText, total_size: 1, fragment_size: 0 });
    assert_eq!(repo.load_version("a", bad), Err(LoadError::ZeroFragmentSize));
    assert!(repo.entries.is_empty());
    let mut good = file("a_1.bin");
    good.crypt = Some(info());
    assert_eq!(repo.load_version("a", good), Ok(()));
    assert_eq!(names(&repo, "a"), ["a_1.bin"]);
}
