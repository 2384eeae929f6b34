//! The asset store: validated create/read/delete/list operations on the
//! per-id encrypted blobs of a vault's `vault-assets` directory, over the
//! directory model. The blobs are opaque to this store: it never inspects or
//! transforms their content.

use crate::dirmodel::DirModel;
use crate::errors::VaultError;
use crate::names::{asset_file_name, enc_name, file_stem, path_ext, path_extension, stem_of, tmp_name};
use crate::text::str_eq;
use crate::validate::{valid_asset_id, validate_asset_id};
use vstd::prelude::*;
use vstd::seq_lib::*;
use vstd::string::*;

verus! {

/// The assets directory after a successful atomic write of asset `id`.
pub open spec fn asset_write_effect(
    m: Map<Seq<char>, Seq<char>>,
    id: Seq<char>,
    data: Seq<char>,
) -> Map<Seq<char>, Seq<char>> {
    m.remove(tmp_name(enc_name(id))).insert(enc_name(id), data)
}

/// The assets directory after a delete of asset `id`.
pub open spec fn asset_delete_effect(m: Map<Seq<char>, Seq<char>>, id: Seq<char>) -> Map<
    Seq<char>,
    Seq<char>,
> {
    m.remove(enc_name(id))
}

/// Whether a file name carries the asset extension, exactly `enc`.
pub open spec fn is_enc_name(n: Seq<char>) -> bool {
    match path_ext(n) {
        Some(e) => e == "enc"@,
        None => false,
    }
}

/// The asset ids read off a directory listing: the stems of the names whose
/// extension is exactly `enc`, in listing order.
pub open spec fn asset_ids_spec(names: Seq<Seq<char>>) -> Seq<Seq<char>> {
    names.filter(|n: Seq<char>| is_enc_name(n)).map_values(|n: Seq<char>| stem_of(n))
}

/// Stores an asset blob under `<id>.enc` through the atomic write protocol,
/// after validating the id. The host creates the `vault-assets` directory
/// before mirroring this write.
pub fn write_asset(dir: &mut DirModel, asset_id: &str, data: &str, rename_ok: bool) -> (r: Result<
    (),
    VaultError,
>)
    requires
        old(dir).wf(),
    ensures
        final(dir).wf(),
        !valid_asset_id(asset_id@) ==> r == Err::<(), VaultError>(VaultError::Validation) && *final(dir) == *old(dir),
        valid_asset_id(asset_id@) && rename_ok ==> r is Ok && final(dir)@ == asset_write_effect(
            old(dir)@,
            asset_id@,
            data@,
        ),
        valid_asset_id(asset_id@) && !rename_ok ==> r == Err::<(), VaultError>(VaultError::Io)
            && final(dir)@ == old(dir)@.remove(tmp_name(enc_name(asset_id@))),
        valid_asset_id(asset_id@) && !rename_ok ==> (final(dir)@.contains_key(enc_name(asset_id@))
            <==> old(dir)@.contains_key(enc_name(asset_id@))),
{
    match validate_asset_id(asset_id) {
        Err(e) => Err(e),
        Ok(()) => {
            let name = asset_file_name(asset_id);
            dir.atomic_write(name.as_str(), data, rename_ok)
        },
    }
}

/// Retrieves an asset blob; a missing asset is reported, never invented.
pub fn read_asset(dir: &DirModel, asset_id: &str) -> (r: Result<String, VaultError>)
    requires
        dir.wf(),
    ensures
        !valid_asset_id(asset_id@) ==> r == Err::<String, VaultError>(VaultError::Validation),
        valid_asset_id(asset_id@) && dir@.contains_key(enc_name(asset_id@)) ==> r is Ok && r->Ok_0@
            == dir@[enc_name(asset_id@)],
        valid_asset_id(asset_id@) && !dir@.contains_key(enc_name(asset_id@)) ==> r == Err::<
            String,
            VaultError,
        >(VaultError::NotFound),
{
    match validate_asset_id(asset_id) {
        Err(e) => Err(e),
        Ok(()) => {
            let name = asset_file_name(asset_id);
            match dir.read(name.as_str()) {
                Some(s) => Ok(s),
                None => Err(VaultError::NotFound),
            }
        },
    }
}

/// Deletes an asset blob. Deleting an id that has no blob succeeds and
/// changes nothing: the operation is idempotent.
pub fn delete_asset(dir: &mut DirModel, asset_id: &str) -> (r: Result<(), VaultError>)
    requires
        old(dir).wf(),
    ensures
        final(dir).wf(),
        !valid_asset_id(asset_id@) ==> r == Err::<(), VaultError>(VaultError::Validation) && *final(dir) == *old(dir),
        valid_asset_id(asset_id@) ==> r is Ok && final(dir)@ == asset_delete_effect(
            old(dir)@,
            asset_id@,
        ),
{
    match validate_asset_id(asset_id) {
        Err(e) => Err(e),
        Ok(()) => {
            let name = asset_file_name(asset_id);
            dir.remove(name.as_str());
            Ok(())
        },
    }
}

/// Lists the stored asset ids: the stems of the `.enc` entries of the assets
/// directory. Files with any other extension are ignored; the order is the
/// model's listing order.
pub fn list_assets(dir: &DirModel) -> (r: Vec<String>)
    ensures
        r@.map_values(|s: String| s@) == asset_ids_spec(dir.names_seq()),
{
    let names = dir.names();
    asset_ids_of_names(&names)
}

/// The asset ids among a directory listing, as [`asset_ids_spec`] reads
/// them; the host applies this to the real directory's entries.
pub fn asset_ids_of_names(names: &Vec<String>) -> (r: Vec<String>)
    ensures
        r@.map_values(|s: String| s@) == asset_ids_spec(names@.map_values(|s: String| s@)),
{
    let ghost nv = names@.map_values(|s: String| s@);
    let n = names.len();
    let mut out: Vec<String> = Vec::new();
    let mut i: usize = 0;
    while i < n
        invariant
            0 <= i <= n,
            n == names@.len(),
            nv == names@.map_values(|s: String| s@),
            out@.map_values(|s: String| s@) =~= asset_ids_spec(nv.subrange(0, i as int)),
        decreases n - i,
    {
        let ghost prefix = nv.subrange(0, i as int);
        let ghost next = nv.subrange(0, i + 1);
        proof {
            assert(names@[i as int]@ == nv[i as int]);
            assert(next.drop_last() =~= prefix);
            assert(next.last() == nv[i as int]);
            reveal(Seq::filter);
        }
        let name = &names[i];
        let keep = match path_extension(name.as_str()) {
            Some(e) => str_eq(e.as_str(), "enc"),
            None => false,
        };
        if keep {
            let stem = file_stem(name.as_str());
            out.push(stem);
            proof {
                assert(asset_ids_spec(next) =~= asset_ids_spec(prefix).push(stem_of(name@)));
            }
        } else {
            proof {
                assert(asset_ids_spec(next) =~= asset_ids_spec(prefix));
            }
        }
        i = i + 1;
    }
    proof {
        assert(nv.subrange(0, n as int) =~= nv);
    }
    out
}

/// Reading an asset right after a successful write of the same id returns
/// exactly the written payload.
pub proof fn lemma_asset_round_trip(m: Map<Seq<char>, Seq<char>>, id: Seq<char>, data: Seq<char>)
    ensures
        asset_write_effect(m, id, data).contains_key(enc_name(id)),
        asset_write_effect(m, id, data)[enc_name(id)] == data,
{
    crate::names::lemma_tmp_name_distinct(enc_name(id));
}

/// Deleting an asset twice leaves the same state as deleting it once; the
/// second delete succeeds by the contract of `delete_asset`.
pub proof fn lemma_delete_idempotent(m: Map<Seq<char>, Seq<char>>, id: Seq<char>)
    ensures
        asset_delete_effect(asset_delete_effect(m, id), id) == asset_delete_effect(m, id),
{
    assert(asset_delete_effect(asset_delete_effect(m, id), id) =~= asset_delete_effect(m, id));
}

} // verus!
