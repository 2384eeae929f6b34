use mdnotebook::assets::{delete_asset, list_assets, read_asset, write_asset};
use mdnotebook::dirmodel::DirModel;
use mdnotebook::errors::VaultError;
use mdnotebook::names::{
    asset_file_name, md_file_name, tmp_file_name, validate_markdown_path, vault_file_name,
};
use mdnotebook::validate::validate_asset_id;
use mdnotebook::vault::{read_vault, vault_exists, write_vault};

#[test]
fn asset_write_then_read_returns_payload() {
    let mut dir = DirModel::new();
    let payload = "binary-ish encrypted payload \u{1F512}";
    assert_eq!(write_asset(&mut dir, "a1", payload, true), Ok(()));
    assert_eq!(read_asset(&dir, "a1"), Ok(String::from(payload)));
}

#[test]
fn asset_overwrite_replaces_content() {
    let mut dir = DirModel::new();
    assert_eq!(write_asset(&mut dir, "img-1", "first", true), Ok(()));
    assert_eq!(write_asset(&mut dir, "img-1", "second", true), Ok(()));
    assert_eq!(read_asset(&dir, "img-1"), Ok(String::from("second")));
    assert_eq!(list_assets(&dir).len(), 1);
}

#[test]
fn delete_twice_in_a_row_is_not_an_error() {
    let mut dir = DirModel::new();
    assert_eq!(write_asset(&mut dir, "gone", "x", true), Ok(()));
    assert_eq!(delete_asset(&mut dir, "gone"), Ok(()));
    assert_eq!(delete_asset(&mut dir, "gone"), Ok(()));
    assert_eq!(read_asset(&dir, "gone"), Err(VaultError::NotFound));
}

#[test]
fn delete_of_never_written_id_succeeds() {
    let mut dir = DirModel::new();
    assert_eq!(delete_asset(&mut dir, "never-there"), Ok(()));
}

#[test]
fn list_assets_skips_unrelated_files() {
    let mut dir = DirModel::new();
    assert_eq!(write_asset(&mut dir, "a1", "x", true), Ok(()));
    assert_eq!(write_asset(&mut dir, "b2", "y", true), Ok(()));
    dir.insert("c3.txt", "not an asset");
    let mut ids = list_assets(&dir);
    ids.sort();
    assert_eq!(ids, vec![String::from("a1"), String::from("b2")]);
}

#[test]
fn list_assets_of_missing_directory_is_empty() {
    let dir = DirModel::new();
    assert_eq!(list_assets(&dir), Vec::<String>::new());
}

#[test]
fn failed_rename_leaves_final_file_and_removes_temp() {
    let mut dir = DirModel::new();
    assert_eq!(write_vault(&mut dir, "the old state", true), Ok(()));
    assert_eq!(write_vault(&mut dir, "half written", false), Err(VaultError::Io));
    assert_eq!(read_vault(&dir), Some(String::from("the old state")));
    assert!(!dir.contains("vault.json.tmp"));
}

#[test]
fn failed_rename_on_fresh_folder_creates_nothing() {
    let mut dir = DirModel::new();
    assert_eq!(write_vault(&mut dir, "data", false), Err(VaultError::Io));
    assert!(!vault_exists(&dir));
    assert!(!dir.contains("vault.json.tmp"));
}

#[test]
fn failed_asset_rename_leaves_previous_blob() {
    let mut dir = DirModel::new();
    assert_eq!(write_asset(&mut dir, "keep", "v1", true), Ok(()));
    assert_eq!(write_asset(&mut dir, "keep", "v2", false), Err(VaultError::Io));
    assert_eq!(read_asset(&dir, "keep"), Ok(String::from("v1")));
    assert!(!dir.contains("keep.enc.tmp"));
}

#[test]
fn vault_exists_false_then_true_after_write() {
    let mut dir = DirModel::new();
    assert!(!vault_exists(&dir));
    assert_eq!(read_vault(&dir), None);
    assert_eq!(write_vault(&mut dir, "{\"notes\":[]}", true), Ok(()));
    assert!(vault_exists(&dir));
    assert_eq!(read_vault(&dir), Some(String::from("{\"notes\":[]}")));
}

#[test]
fn traversal_asset_id_is_rejected() {
    assert_eq!(validate_asset_id("../../etc"), Err(VaultError::Validation));
}

#[test]
fn asset_id_bounds_and_characters() {
    assert_eq!(validate_asset_id(""), Err(VaultError::Validation));
    assert_eq!(validate_asset_id("ok-id_123"), Ok(()));
    assert_eq!(validate_asset_id(&"a".repeat(64)), Ok(()));
    assert_eq!(validate_asset_id(&"a".repeat(65)), Err(VaultError::Validation));
    assert_eq!(validate_asset_id("with space"), Err(VaultError::Validation));
    assert_eq!(validate_asset_id("dot.dot"), Err(VaultError::Validation));
}

#[test]
fn asset_operations_validate_before_touching_store() {
    let mut dir = DirModel::new();
    assert_eq!(write_asset(&mut dir, "../../etc", "x", true), Err(VaultError::Validation));
    assert_eq!(read_asset(&dir, "../../etc"), Err(VaultError::Validation));
    assert_eq!(delete_asset(&mut dir, "../../etc"), Err(VaultError::Validation));
    assert!(!vault_exists(&dir));
    assert_eq!(list_assets(&dir), Vec::<String>::new());
}

#[test]
fn markdown_path_validation_is_case_insensitive_on_extension() {
    assert_eq!(validate_markdown_path("shot.png"), Err(VaultError::Validation));
    assert_eq!(validate_markdown_path("notes.md"), Ok(()));
    assert_eq!(validate_markdown_path("/home/someone/NOTES.MD"), Ok(()));
    assert_eq!(validate_markdown_path("a.markdown"), Ok(()));
    assert_eq!(validate_markdown_path("b.TXT"), Ok(()));
    assert_eq!(validate_markdown_path("no_extension"), Err(VaultError::Validation));
    assert_eq!(validate_markdown_path(".md"), Err(VaultError::Validation));
    assert_eq!(validate_markdown_path("dir.md/"), Err(VaultError::Validation));
}

#[test]
fn store_file_names_are_built_exactly() {
    assert_eq!(vault_file_name(), "vault.json");
    assert_eq!(asset_file_name("x9"), "x9.enc");
    assert_eq!(tmp_file_name("vault.json"), "vault.json.tmp");
    assert_eq!(md_file_name("Todo"), "Todo.md");
}

#[test]
fn asset_id_with_dots_cannot_shadow_other_assets() {
    let mut dir = DirModel::new();
    assert_eq!(write_asset(&mut dir, "a", "x", true), Ok(()));
    // "a.enc" as an id would collide with the file of id "a", but the dot is
    // rejected before any store work.
    assert_eq!(write_asset(&mut dir, "a.enc", "y", true), Err(VaultError::Validation));
    assert_eq!(read_asset(&dir, "a"), Ok(String::from("x")));
}
