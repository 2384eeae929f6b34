//! In-memory model of one directory: a finite map from file names to file
//! contents. Every mutating vault operation is verified against this model;
//! the unverified host mirrors each mutation onto the real file system.

use crate::errors::VaultError;
use crate::names::tmp_name;
use crate::text::str_eq;
use vstd::prelude::*;
use vstd::seq_lib::*;
use vstd::string::*;

verus! {

/// Whether some entry of `files` carries the name `k`.
spec fn has_name(files: Seq<(String, String)>, k: Seq<char>) -> bool {
    exists|i: int| 0 <= i < files.len() && files[i].0@ == k
}

/// The index of the entry named `k` (meaningful only when names are unique).
spec fn idx_of(files: Seq<(String, String)>, k: Seq<char>) -> int {
    choose|i: int| 0 <= i < files.len() && files[i].0@ == k
}

/// The entry sequence read as a map from names to contents.
spec fn view_of(files: Seq<(String, String)>) -> Map<Seq<char>, Seq<char>> {
    Map::new(|k: Seq<char>| has_name(files, k), |k: Seq<char>| files[idx_of(files, k)].1@)
}

/// The names of the entries, in entry order.
spec fn names_of(files: Seq<(String, String)>) -> Seq<Seq<char>> {
    files.map_values(|p: (String, String)| p.0@)
}

/// One directory, modelled as a list of (name, content) entries with unique
/// names. Its view is the corresponding `Map<Seq<char>, Seq<char>>`.
pub struct DirModel {
    files: Vec<(String, String)>,
}

impl View for DirModel {
    type V = Map<Seq<char>, Seq<char>>;

    closed spec fn view(&self) -> Map<Seq<char>, Seq<char>> {
        view_of(self.files@)
    }
}

proof fn lemma_lookup(files: Seq<(String, String)>, i: int)
    requires
        names_of(files).no_duplicates(),
        0 <= i < files.len(),
    ensures
        view_of(files).contains_key(files[i].0@),
        view_of(files)[files[i].0@] == files[i].1@,
{
    let k = files[i].0@;
    assert(has_name(files, k)) by {
        assert(files[i].0@ == k);
    }
    let j = idx_of(files, k);
    assert(0 <= j < files.len() && files[j].0@ == k);
    if j != i {
        assert(names_of(files)[i] == k);
        assert(names_of(files)[j] == k);
        assert(false);
    }
}

impl DirModel {
    /// The file names present, in model order.
    pub closed spec fn names_seq(self) -> Seq<Seq<char>> {
        names_of(self.files@)
    }

    /// Well-formed: no two entries share a name.
    pub closed spec fn wf(self) -> bool {
        self.names_seq().no_duplicates()
    }

    /// A name is in the map exactly when it is among the listed names.
    pub proof fn lemma_names_view(self)
        ensures
            forall|k: Seq<char>|
                #[trigger] self@.contains_key(k) <==> self.names_seq().contains(k),
    {
        assert forall|k: Seq<char>|
            #[trigger] self@.contains_key(k) <==> self.names_seq().contains(k) by {
            if self@.contains_key(k) {
                let i = choose|i: int| 0 <= i < self.files@.len() && self.files@[i].0@ == k;
                assert(self.names_seq()[i] == k);
            }
            if self.names_seq().contains(k) {
                let i = choose|i: int|
                    0 <= i < self.names_seq().len() && self.names_seq()[i] == k;
                assert(self.files@[i].0@ == k);
                assert(has_name(self.files@, k));
            }
        }
    }

    /// An empty directory.
    pub fn new() -> (r: DirModel)
        ensures
            r.wf(),
            r@ == Map::<Seq<char>, Seq<char>>::empty(),
            r.names_seq() == Seq::<Seq<char>>::empty(),
    {
        let r = DirModel { files: Vec::new() };
        proof {
            assert(r@ =~= Map::<Seq<char>, Seq<char>>::empty());
            assert(r.names_seq() =~= Seq::<Seq<char>>::empty());
        }
        r
    }

    /// Finds the first entry with the given name.
    fn find_index(&self, name: &str) -> (r: Option<usize>)
        ensures
            match r {
                Some(i) => 0 <= i as int && (i as int) < self.names_seq().len()
                    && self.names_seq()[i as int] == name@ && (forall|j: int|
                    0 <= j < i as int ==> self.names_seq()[j] != name@),
                None => !self.names_seq().contains(name@),
            },
    {
        let n = self.files.len();
        let mut i: usize = 0;
        while i < n
            invariant
                0 <= i <= n,
                n == self.files@.len(),
                n == self.names_seq().len(),
                forall|j: int| 0 <= j < i ==> self.names_seq()[j] != name@,
            decreases n - i,
        {
            if str_eq(self.files[i].0.as_str(), name) {
                proof {
                    assert(self.names_seq()[i as int] == self.files@[i as int].0@);
                }
                return Some(i);
            }
            proof {
                assert(self.names_seq()[i as int] == self.files@[i as int].0@);
            }
            i = i + 1;
        }
        proof {
            if self.names_seq().contains(name@) {
                let j = choose|j: int|
                    0 <= j < self.names_seq().len() && self.names_seq()[j] == name@;
                assert(self.names_seq()[j] != name@);
            }
        }
        None
    }

    /// Whether a file of this name exists.
    pub fn contains(&self, name: &str) -> (r: bool)
        ensures
            r == self@.contains_key(name@),
    {
        proof {
            self.lemma_names_view();
        }
        match self.find_index(name) {
            Some(_) => true,
            None => false,
        }
    }

    /// The content of the named file, if present.
    pub fn read(&self, name: &str) -> (r: Option<String>)
        requires
            self.wf(),
        ensures
            r is Some <==> self@.contains_key(name@),
            r is Some ==> r->0@ == self@[name@],
    {
        proof {
            self.lemma_names_view();
        }
        match self.find_index(name) {
            Some(i) => {
                proof {
                    lemma_lookup(self.files@, i as int);
                }
                Some(self.files[i].1.clone())
            },
            None => None,
        }
    }

    /// Removes the named file; removing an absent name leaves the directory
    /// unchanged.
    pub fn remove(&mut self, name: &str)
        requires
            old(self).wf(),
        ensures
            final(self).wf(),
            final(self)@ == old(self)@.remove(name@),
            final(self).names_seq() == old(self).names_seq().remove_value(name@),
    {
        proof {
            old(self).lemma_names_view();
            old(self).names_seq().index_of_first_ensures(name@);
        }
        match self.find_index(name) {
            None => {
                proof {
                    if old(self).names_seq().index_of_first(name@) is Some {
                        let fi = old(self).names_seq().index_of_first(name@)->0;
                        assert(old(self).names_seq()[fi] == name@);
                        assert(old(self).names_seq().contains(name@));
                    }
                    assert(self.names_seq() == old(self).names_seq().remove_value(name@));
                    assert(self@ =~= old(self)@.remove(name@));
                }
            },
            Some(i) => {
                let ghost of = self.files@;
                let ghost onames = old(self).names_seq();
                self.files.remove(i);
                proof {
                    let nf = self.files@;
                    assert(nf == of.remove(i as int));
                    // The new name list is the old one with index i removed.
                    assert(self.names_seq() =~= onames.remove(i as int)) by {
                        assert(forall|j: int|
                            0 <= j < nf.len() ==> #[trigger] self.names_seq()[j] == nf[j].0@);
                    }
                    // find_index found the first occurrence, so remove_value
                    // removes exactly index i.
                    match onames.index_of_first(name@) {
                        Some(fi) => {
                            if fi < i as int {
                                assert(onames[fi] != name@);
                            }
                            if fi > i as int {
                                assert(onames[i as int] != name@);
                            }
                            assert(fi == i as int);
                        },
                        None => {
                            assert(onames[i as int] == name@);
                            assert(onames.contains(name@));
                            assert(false);
                        },
                    }
                    assert(self.names_seq() == onames.remove_value(name@));
                    // Uniqueness survives the removal.
                    assert(self.names_seq().no_duplicates()) by {
                        assert forall|p: int, q: int|
                            0 <= p < self.names_seq().len() && 0 <= q < self.names_seq().len() && p
                                != q implies self.names_seq()[p] != self.names_seq()[q] by {
                            let p0 = if p < i as int {
                                p
                            } else {
                                p + 1
                            };
                            let q0 = if q < i as int {
                                q
                            } else {
                                q + 1
                            };
                            assert(self.names_seq()[p] == onames[p0]);
                            assert(self.names_seq()[q] == onames[q0]);
                        }
                    }
                    // The map loses exactly the removed name.
                    assert forall|k: Seq<char>| #[trigger]
                        has_name(nf, k) implies has_name(of, k) && k != name@ by {
                        let j = choose|j: int| 0 <= j < nf.len() && nf[j].0@ == k;
                        let j0 = if j < i as int {
                            j
                        } else {
                            j + 1
                        };
                        assert(of[j0].0@ == k);
                        if k == name@ {
                            assert(onames[j0] == k);
                            assert(onames[i as int] == name@);
                            assert(j0 != i as int);
                            assert(false);
                        }
                    }
                    assert forall|k: Seq<char>|
                        has_name(of, k) && k != name@ implies #[trigger] has_name(nf, k) by {
                        let j0 = choose|j0: int| 0 <= j0 < of.len() && of[j0].0@ == k;
                        assert(j0 != i as int);
                        let j = if j0 < i as int {
                            j0
                        } else {
                            j0 - 1
                        };
                        assert(nf[j].0@ == k);
                    }
                    assert forall|k: Seq<char>| #[trigger]
                        has_name(nf, k) implies view_of(nf)[k] == view_of(of)[k] by {
                        let j = idx_of(nf, k);
                        assert(0 <= j < nf.len() && nf[j].0@ == k);
                        let j0 = if j < i as int {
                            j
                        } else {
                            j + 1
                        };
                        assert(nf[j].1@ == of[j0].1@);
                        lemma_lookup(of, j0);
                        assert(view_of(nf)[k] == nf[j].1@) by {
                            lemma_lookup(nf, j);
                        }
                    }
                    assert(self@ =~= old(self)@.remove(name@));
                }
            },
        }
    }

    /// Writes the named file directly (no temporary), overwriting any
    /// previous content, as the export engine does.
    pub fn insert(&mut self, name: &str, content: &str)
        requires
            old(self).wf(),
        ensures
            final(self).wf(),
            final(self)@ == old(self)@.insert(name@, content@),
            final(self).names_seq() == old(self).names_seq().remove_value(name@).push(name@),
    {
        self.remove(name);
        let ghost mid = *self;
        self.files.push((String::from_str(name), String::from_str(content)));
        proof {
            let mf = mid.files@;
            let nf = self.files@;
            assert(nf == mf.push((nf.last().0, nf.last().1)));
            assert(nf.last().0@ == name@ && nf.last().1@ == content@);
            assert(self.names_seq() =~= mid.names_seq().push(name@)) by {
                assert(forall|j: int|
                    0 <= j < nf.len() ==> #[trigger] self.names_seq()[j] == nf[j].0@);
                assert(forall|j: int|
                    0 <= j < mf.len() ==> #[trigger] mid.names_seq()[j] == mf[j].0@);
            }
            // The removed directory holds no entry named `name`, so the push
            // keeps names unique.
            mid.lemma_names_view();
            assert(!mid@.contains_key(name@)) by {
                assert(mid@ == old(self)@.remove(name@));
            }
            assert(!mid.names_seq().contains(name@));
            assert(self.names_seq().no_duplicates()) by {
                assert forall|p: int, q: int|
                    0 <= p < self.names_seq().len() && 0 <= q < self.names_seq().len() && p
                        != q implies self.names_seq()[p] != self.names_seq()[q] by {
                    let n = mid.names_seq().len();
                    if p < n && q < n {
                        assert(mid.names_seq()[p] == self.names_seq()[p]);
                        assert(mid.names_seq()[q] == self.names_seq()[q]);
                    } else if p == n {
                        assert(self.names_seq()[p] == name@);
                        if mid.names_seq()[q] == name@ {
                            assert(mid.names_seq().contains(name@));
                        }
                    } else {
                        assert(self.names_seq()[q] == name@);
                        if mid.names_seq()[p] == name@ {
                            assert(mid.names_seq().contains(name@));
                        }
                    }
                }
            }
            // The map gains exactly the written entry.
            assert forall|k: Seq<char>| #[trigger]
                has_name(nf, k) implies has_name(mf, k) || k == name@ by {
                let j = choose|j: int| 0 <= j < nf.len() && nf[j].0@ == k;
                if j < mf.len() {
                    assert(mf[j].0@ == k);
                }
            }
            assert forall|k: Seq<char>| has_name(mf, k) implies #[trigger] has_name(nf, k) by {
                let j = choose|j: int| 0 <= j < mf.len() && mf[j].0@ == k;
                assert(nf[j].0@ == k);
            }
            assert(has_name(nf, name@)) by {
                assert(nf[nf.len() - 1].0@ == name@);
            }
            assert forall|k: Seq<char>|
                has_name(nf, k) && k != name@ implies #[trigger] view_of(nf)[k] == view_of(mf)[k] by {
                let j = idx_of(nf, k);
                assert(0 <= j < nf.len() && nf[j].0@ == k);
                assert(j < mf.len()) by {
                    if j == nf.len() - 1 {
                        assert(nf[j].0@ == name@);
                    }
                }
                assert(mf[j].0@ == k && mf[j].1@ == nf[j].1@);
                lemma_lookup(mf, j);
                lemma_lookup(nf, j);
            }
            assert(view_of(nf)[name@] == content@) by {
                lemma_lookup(nf, nf.len() - 1);
            }
            assert(self@ =~= mid@.insert(name@, content@));
            assert(self@ =~= old(self)@.insert(name@, content@));
        }
    }

    /// The atomic write protocol against this directory: the payload goes to
    /// the sibling temporary name `<name>.tmp`, which a successful rename
    /// moves onto `name`. When the rename fails (`rename_ok` is false, the
    /// injected outcome of the one step that can fail), the temporary file is
    /// removed and the final name keeps its previous state: it is never left
    /// half-written.
    pub fn atomic_write(&mut self, name: &str, content: &str, rename_ok: bool) -> (r: Result<
        (),
        VaultError,
    >)
        requires
            old(self).wf(),
        ensures
            final(self).wf(),
            rename_ok ==> r is Ok && final(self)@ == old(self)@.remove(tmp_name(name@)).insert(
                name@,
                content@,
            ),
            !rename_ok ==> r == Err::<(), VaultError>(VaultError::Io) && final(self)@ == old(self)@.remove(tmp_name(name@)),
            !rename_ok ==> (final(self)@.contains_key(name@) <==> old(self)@.contains_key(name@)),
            !rename_ok && old(self)@.contains_key(name@) ==> final(self)@[name@] == old(self)@[name@],
    {
        let tmp = crate::names::tmp_file_name(name);
        proof {
            crate::names::lemma_tmp_name_distinct(name@);
        }
        self.remove(tmp.as_str());
        if rename_ok {
            self.insert(name, content);
            proof {
                assert(self@ =~= old(self)@.remove(tmp_name(name@)).insert(name@, content@));
            }
            Ok(())
        } else {
            Err(VaultError::Io)
        }
    }

    /// The file names present, in model order.
    pub fn names(&self) -> (r: Vec<String>)
        ensures
            r@.map_values(|s: String| s@) == self.names_seq(),
    {
        let n = self.files.len();
        let mut out: Vec<String> = Vec::new();
        let mut i: usize = 0;
        while i < n
            invariant
                0 <= i <= n,
                n == self.files@.len(),
                out@.len() == i,
                forall|j: int| 0 <= j < i ==> out@[j]@ == self.names_seq()[j],
            decreases n - i,
        {
            out.push(self.files[i].0.clone());
            proof {
                assert(self.names_seq()[i as int] == self.files@[i as int].0@);
            }
            i = i + 1;
        }
        proof {
            assert(out@.map_values(|s: String| s@) =~= self.names_seq());
        }
        out
    }
}

} // verus!
