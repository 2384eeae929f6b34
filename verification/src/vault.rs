//! The vault store: read/write/exists operations on the single index
//! document `vault.json` of a vault folder, over the directory model.

use crate::dirmodel::DirModel;
use crate::errors::VaultError;
use crate::names::{tmp_name, vault_file_name};
use vstd::prelude::*;

verus! {

/// The directory after a successful atomic write of `vault.json`.
pub open spec fn vault_write_effect(m: Map<Seq<char>, Seq<char>>, data: Seq<char>) -> Map<
    Seq<char>,
    Seq<char>,
> {
    m.remove(tmp_name("vault.json"@)).insert("vault.json"@, data)
}

/// Returns the vault document's content, or `None` when the folder holds no
/// `vault.json` yet.
pub fn read_vault(dir: &DirModel) -> (r: Option<String>)
    requires
        dir.wf(),
    ensures
        r is Some <==> dir@.contains_key("vault.json"@),
        r is Some ==> r->0@ == dir@["vault.json"@],
{
    let name = vault_file_name();
    dir.read(name.as_str())
}

/// Persists the vault document through the atomic write protocol: on success
/// `vault.json` holds exactly `data`; on a failed rename the previous state
/// of `vault.json` is untouched and the temporary file is gone.
pub fn write_vault(dir: &mut DirModel, data: &str, rename_ok: bool) -> (r: Result<(), VaultError>)
    requires
        old(dir).wf(),
    ensures
        final(dir).wf(),
        rename_ok ==> r is Ok && final(dir)@ == vault_write_effect(old(dir)@, data@),
        !rename_ok ==> r == Err::<(), VaultError>(VaultError::Io) && final(dir)@ == old(dir)@.remove(tmp_name("vault.json"@)),
        !rename_ok ==> (final(dir)@.contains_key("vault.json"@) <==> old(dir)@.contains_key(
            "vault.json"@,
        )),
        !rename_ok && old(dir)@.contains_key("vault.json"@) ==> final(dir)@["vault.json"@] == old(dir)@["vault.json"@],
{
    let name = vault_file_name();
    dir.atomic_write(name.as_str(), data, rename_ok)
}

/// Whether the folder already holds a vault document; no content is read.
pub fn vault_exists(dir: &DirModel) -> (r: bool)
    ensures
        r == dir@.contains_key("vault.json"@),
{
    let name = vault_file_name();
    dir.contains(name.as_str())
}

/// A folder never written to holds no vault document, and one successful
/// write makes `vault_exists` true, with exactly the written content stored.
pub proof fn lemma_vault_exists_after_write(m: Map<Seq<char>, Seq<char>>, data: Seq<char>)
    ensures
        !Map::<Seq<char>, Seq<char>>::empty().contains_key("vault.json"@),
        vault_write_effect(m, data).contains_key("vault.json"@),
        vault_write_effect(m, data)["vault.json"@] == data,
{
}

} // verus!
