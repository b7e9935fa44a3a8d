//! The executable store behind the persistence facade.
//!
//! `Store` is the verified realisation of `StoreModel`: every operation's
//! contract says that the store's view takes the model transition. A host
//! binds the store to its real data directory at the filesystem edge; the
//! semantics of each operation is fixed here.

use vstd::prelude::*;
use vstd::string::StringExecFns;
use crate::b64::screenshot_data_uri;
use crate::kvseq::distinct_keys;
use crate::kvseq::keys_of;
use crate::kvseq::lemma_distinct_push;
use crate::kvseq::lemma_map_of_absent;
use crate::kvseq::lemma_map_of_dom;
use crate::kvseq::lemma_map_of_index;
use crate::kvseq::lemma_map_of_len;
use crate::kvseq::lemma_map_of_push;
use crate::kvseq::lemma_map_of_remove;
use crate::kvseq::map_of;
use crate::model::StoreModel;
use crate::model::composite_name_spec;
use crate::model::delete_screenshot_model;
use crate::model::empty_model;
use crate::model::lemma_total_bytes_empty;
use crate::model::lemma_total_bytes_insert_fresh;
use crate::model::load_data_model;
use crate::model::load_screenshot_model;
use crate::model::save_data_model;
use crate::model::save_screenshot_model;
use crate::model::total_bytes;

verus! {

/// What can go wrong in a facade operation, by cause. The store itself only
/// ever reports `NotFound`; the host's filesystem edge reports the others.
#[derive(Clone, Copy, PartialEq, Eq, Structural, Debug)]
pub enum PersistError {
    DirectoryResolution,
    DirectoryCreation,
    Write,
    Read,
    NotFound,
    Enumeration,
}

/// The flat descriptive string for an error, as handed across the host
/// boundary.
pub open spec fn message_of(e: PersistError) -> Seq<char> {
    match e {
        PersistError::DirectoryResolution => "could not resolve the application data directory"@,
        PersistError::DirectoryCreation => "could not create the application data directory"@,
        PersistError::Write => "could not write the file"@,
        PersistError::Read => "could not read the file"@,
        PersistError::NotFound => "no such file"@,
        PersistError::Enumeration => "could not list the directory"@,
    }
}

impl PersistError {
    /// The flat descriptive string for this error.
    pub fn message(&self) -> (r: String)
        ensures
            r@ == message_of(*self),
    {
        match self {
            PersistError::DirectoryResolution => String::from_str(
                "could not resolve the application data directory",
            ),
            PersistError::DirectoryCreation => String::from_str(
                "could not create the application data directory",
            ),
            PersistError::Write => String::from_str("could not write the file"),
            PersistError::Read => String::from_str("could not read the file"),
            PersistError::NotFound => String::from_str("no such file"),
            PersistError::Enumeration => String::from_str("could not list the directory"),
        }
    }
}

/// The entries of the blob table, as key-value pairs of character sequences.
pub open spec fn blob_entries_view(entries: Seq<(String, String)>) -> Seq<(Seq<char>, Seq<char>)> {
    entries.map_values(|p: (String, String)| (p.0@, p.1@))
}

/// The entries of the screenshot table, as key-value pairs over byte
/// sequences.
pub open spec fn shot_entries_view(entries: Seq<(String, Vec<u8>)>) -> Seq<(Seq<char>, Seq<u8>)> {
    entries.map_values(|p: (String, Vec<u8>)| (p.0@, p.1@))
}

/// The persistence facade's store: named text blobs, and screenshot files
/// under their composite names.
pub struct Store {
    blobs: Vec<(String, String)>,
    shots: Vec<(String, Vec<u8>)>,
}

impl View for Store {
    type V = StoreModel;

    closed spec fn view(&self) -> StoreModel {
        StoreModel {
            blobs: map_of(blob_entries_view(self.blobs@)),
            shots: map_of(shot_entries_view(self.shots@)),
        }
    }
}

/// The composite screenshot name: trade identifier, underscore, file name.
pub fn composite_name(trade_id: &String, filename: &String) -> (r: String)
    ensures
        r@ == composite_name_spec(trade_id@, filename@),
{
    let mut r = trade_id.clone();
    r.append("_");
    r.append(filename.as_str());
    proof {
        reveal_strlit("_");
        assert(r@ =~= composite_name_spec(trade_id@, filename@));
    }
    r
}

/// The index of the entry under `key`, if any entry carries it.
fn find_key<V>(entries: &Vec<(String, V)>, key: &String) -> (r: Option<usize>)
    ensures
        match r {
            Some(i) => i < entries@.len() && entries@[i as int].0@ == key@,
            None => forall|j: int|
                0 <= j < entries@.len() ==> (#[trigger] entries@[j]).0@ != key@,
        },
{
    let mut i: usize = 0;
    while i < entries.len()
        invariant
            i <= entries@.len(),
            forall|j: int| 0 <= j < i ==> (#[trigger] entries@[j]).0@ != key@,
        decreases entries@.len() - i,
    {
        if entries[i].0 == *key {
            return Some(i);
        }
        i += 1;
    }
    None
}

impl Store {
    /// Both tables carry pairwise-distinct keys.
    pub closed spec fn wf(&self) -> bool {
        distinct_keys(blob_entries_view(self.blobs@)) && distinct_keys(
            shot_entries_view(self.shots@),
        )
    }

    /// A store with nothing persisted.
    pub fn new() -> (s: Store)
        ensures
            s.wf(),
            s@ == empty_model(),
    {
        let s = Store { blobs: Vec::new(), shots: Vec::new() };
        proof {
            assert(blob_entries_view(s.blobs@) =~= Seq::<(Seq<char>, Seq<char>)>::empty());
            assert(shot_entries_view(s.shots@) =~= Seq::<(Seq<char>, Seq<u8>)>::empty());
        }
        s
    }

    /// Write `content` as the full contents of the blob at `path`, creating
    /// or overwriting it.
    pub fn save_data(&mut self, path: String, content: String)
        requires
            old(self).wf(),
        ensures
            final(self).wf(),
            final(self)@ == save_data_model(old(self)@, path@, content@),
    {
        let ghost entries0 = blob_entries_view(self.blobs@);
        match find_key(&self.blobs, &path) {
            Some(i) => {
                proof {
                    lemma_map_of_remove(entries0, i as int);
                }
                self.blobs.remove(i);
                proof {
                    assert(blob_entries_view(self.blobs@) =~= entries0.remove(i as int));
                    assert forall|j: int|
                        0 <= j < self.blobs@.len() implies (#[trigger] self.blobs@[j]).0@
                        != path@ by {
                        let jj = if j < i as int {
                            j
                        } else {
                            j + 1
                        };
                        assert(self.blobs@[j] == old(self).blobs@[jj]);
                        assert(entries0[jj].0 == old(self).blobs@[jj].0@);
                        assert(entries0[i as int].0 == path@);
                    }
                }
                self.push_blob(path, content);
                proof {
                    assert(map_of(entries0).remove(path@).insert(path@, content@) =~= map_of(
                        entries0,
                    ).insert(path@, content@));
                }
            },
            None => {
                self.push_blob(path, content);
            },
        }
    }

    /// Append a blob entry whose key no current entry carries.
    fn push_blob(&mut self, path: String, content: String)
        requires
            old(self).wf(),
            forall|j: int|
                0 <= j < old(self).blobs@.len() ==> (#[trigger] old(self).blobs@[j]).0@ != path@,
        ensures
            final(self).wf(),
            final(self)@ == save_data_model(old(self)@, path@, content@),
    {
        let ghost entries0 = blob_entries_view(self.blobs@);
        proof {
            assert forall|j: int|
                0 <= j < entries0.len() implies (#[trigger] entries0[j]).0 != path@ by {
                assert(entries0[j].0 == old(self).blobs@[j].0@);
            }
            lemma_distinct_push(entries0, path@, content@);
            lemma_map_of_push(entries0, path@, content@);
        }
        self.blobs.push((path, content));
        proof {
            assert(blob_entries_view(self.blobs@) =~= entries0.push((path@, content@)));
        }
    }

    /// Read the blob at `path` verbatim; a path never saved reads as the
    /// empty string, not as an error.
    pub fn load_data(&self, path: &String) -> (r: String)
        requires
            self.wf(),
        ensures
            r@ == load_data_model(self@, path@),
    {
        let ghost entries = blob_entries_view(self.blobs@);
        match find_key(&self.blobs, path) {
            Some(i) => {
                proof {
                    lemma_map_of_index(entries, i as int);
                }
                self.blobs[i].1.clone()
            },
            None => {
                proof {
                    assert forall|j: int|
                        0 <= j < entries.len() implies (#[trigger] entries[j]).0 != path@ by {
                        assert(entries[j].0 == self.blobs@[j].0@);
                    }
                    lemma_map_of_absent(entries, path@);
                }
                String::new()
            },
        }
    }

    /// Write screenshot bytes under the composite name built from the trade
    /// identifier and the file name, overwriting any file of that name, and
    /// hand back the name actually used.
    pub fn save_screenshot(&mut self, trade_id: String, filename: String, bytes: Vec<u8>) -> (name:
        String)
        requires
            old(self).wf(),
        ensures
            final(self).wf(),
            name@ == composite_name_spec(trade_id@, filename@),
            final(self)@ == save_screenshot_model(old(self)@, trade_id@, filename@, bytes@),
    {
        let name = composite_name(&trade_id, &filename);
        let ghost entries0 = shot_entries_view(self.shots@);
        match find_key(&self.shots, &name) {
            Some(i) => {
                proof {
                    lemma_map_of_remove(entries0, i as int);
                }
                self.shots.remove(i);
                proof {
                    assert(shot_entries_view(self.shots@) =~= entries0.remove(i as int));
                    assert forall|j: int|
                        0 <= j < self.shots@.len() implies (#[trigger] self.shots@[j]).0@
                        != name@ by {
                        let jj = if j < i as int {
                            j
                        } else {
                            j + 1
                        };
                        assert(self.shots@[j] == old(self).shots@[jj]);
                        assert(entries0[jj].0 == old(self).shots@[jj].0@);
                        assert(entries0[i as int].0 == name@);
                    }
                }
                self.push_shot(name.clone(), bytes);
                proof {
                    assert(map_of(entries0).remove(name@).insert(name@, bytes@) =~= map_of(
                        entries0,
                    ).insert(name@, bytes@));
                }
            },
            None => {
                self.push_shot(name.clone(), bytes);
            },
        }
        name
    }

    /// Append a screenshot entry whose name no current entry carries.
    fn push_shot(&mut self, name: String, bytes: Vec<u8>)
        requires
            old(self).wf(),
            forall|j: int|
                0 <= j < old(self).shots@.len() ==> (#[trigger] old(self).shots@[j]).0@ != name@,
        ensures
            final(self).wf(),
            final(self)@ == (StoreModel {
                shots: old(self)@.shots.insert(name@, bytes@),
                ..old(self)@
            }),
    {
        let ghost entries0 = shot_entries_view(self.shots@);
        proof {
            assert forall|j: int|
                0 <= j < entries0.len() implies (#[trigger] entries0[j]).0 != name@ by {
                assert(entries0[j].0 == old(self).shots@[j].0@);
            }
            lemma_distinct_push(entries0, name@, bytes@);
            lemma_map_of_push(entries0, name@, bytes@);
        }
        self.shots.push((name, bytes));
        proof {
            assert(shot_entries_view(self.shots@) =~= entries0.push((name@, bytes@)));
        }
    }

    /// Read the screenshot under `filename` as an inline-data string; an
    /// absent name is an error, unlike an absent blob.
    pub fn load_screenshot(&self, filename: &String) -> (r: Result<String, PersistError>)
        requires
            self.wf(),
        ensures
            match r {
                Ok(s) => load_screenshot_model(self@, filename@) == Some(s@),
                Err(e) => load_screenshot_model(self@, filename@) is None && e
                    == PersistError::NotFound,
            },
    {
        let ghost entries = shot_entries_view(self.shots@);
        match find_key(&self.shots, filename) {
            Some(i) => {
                proof {
                    lemma_map_of_index(entries, i as int);
                }
                Ok(screenshot_data_uri(&self.shots[i].1))
            },
            None => {
                proof {
                    assert forall|j: int|
                        0 <= j < entries.len() implies (#[trigger] entries[j]).0 != filename@ by {
                        assert(entries[j].0 == self.shots@[j].0@);
                    }
                    lemma_map_of_absent(entries, filename@);
                }
                Err(PersistError::NotFound)
            },
        }
    }

    /// Remove the screenshot under `filename`; an absent name is an error,
    /// not a silent no-op.
    pub fn delete_screenshot(&mut self, filename: &String) -> (r: Result<(), PersistError>)
        requires
            old(self).wf(),
        ensures
            final(self).wf(),
            old(self)@.shots.dom().contains(filename@) ==> r == Ok::<(), PersistError>(())
                && final(self)@ == delete_screenshot_model(old(self)@, filename@),
            !old(self)@.shots.dom().contains(filename@) ==> r == Err::<(), PersistError>(
                PersistError::NotFound,
            ) && final(self)@ == old(self)@,
    {
        let ghost entries = shot_entries_view(self.shots@);
        match find_key(&self.shots, filename) {
            Some(i) => {
                proof {
                    lemma_map_of_index(entries, i as int);
                    lemma_map_of_remove(entries, i as int);
                }
                self.shots.remove(i);
                proof {
                    assert(shot_entries_view(self.shots@) =~= entries.remove(i as int));
                }
                Ok(())
            },
            None => {
                proof {
                    assert forall|j: int|
                        0 <= j < entries.len() implies (#[trigger] entries[j]).0 != filename@ by {
                        assert(entries[j].0 == self.shots@[j].0@);
                    }
                    lemma_map_of_absent(entries, filename@);
                }
                Err(PersistError::NotFound)
            },
        }
    }

    /// The names of all stored screenshots, each exactly once, in storage
    /// order.
    pub fn list_screenshots(&self) -> (names: Vec<String>)
        requires
            self.wf(),
        ensures
            names@.map_values(|s: String| s@).to_set() == self@.shots.dom(),
            names@.map_values(|s: String| s@).no_duplicates(),
            names@.len() == self@.shots.dom().len(),
    {
        let ghost entries = shot_entries_view(self.shots@);
        let mut names: Vec<String> = Vec::new();
        let mut i: usize = 0;
        while i < self.shots.len()
            invariant
                i <= self.shots@.len(),
                names@.len() == i,
                forall|j: int| 0 <= j < i ==> (#[trigger] names@[j])@ == self.shots@[j].0@,
            decreases self.shots@.len() - i,
        {
            names.push(self.shots[i].0.clone());
            i += 1;
        }
        proof {
            assert(names@.map_values(|s: String| s@) =~= keys_of(entries));
            lemma_map_of_dom(entries);
            lemma_map_of_len(entries);
        }
        names
    }

    /// The number of stored screenshots and their total size in bytes.
    pub fn screenshot_stats(&self) -> (r: (usize, u64))
        requires
            self.wf(),
            total_bytes(self@.shots) <= u64::MAX,
        ensures
            r.0 == self@.shots.dom().len(),
            r.1 == total_bytes(self@.shots),
    {
        let ghost entries = shot_entries_view(self.shots@);
        proof {
            lemma_map_of_len(entries);
            lemma_total_bytes_is_sum(entries);
        }
        let mut total: u64 = 0;
        let mut i: usize = 0;
        while i < self.shots.len()
            invariant
                i <= self.shots@.len(),
                entries == shot_entries_view(self.shots@),
                distinct_keys(entries),
                total == sum_lens(entries.take(i as int)),
                total_bytes(self@.shots) == sum_lens(entries),
                total_bytes(self@.shots) <= u64::MAX,
            decreases self.shots@.len() - i,
        {
            proof {
                assert(entries.take(i + 1).drop_last() =~= entries.take(i as int));
                assert(entries.take(i + 1).last() == entries[i as int]);
                lemma_sum_lens_take_le(entries, i + 1);
            }
            let size = self.shots[i].1.len();
            total = total + (size as u64);
            i += 1;
        }
        proof {
            assert(entries.take(entries.len() as int) =~= entries);
        }
        (self.shots.len(), total)
    }
}

/// The summed byte lengths of a prefix never exceed those of the whole.
proof fn lemma_sum_lens_take_le(entries: Seq<(Seq<char>, Seq<u8>)>, i: int)
    requires
        0 <= i <= entries.len(),
    ensures
        sum_lens(entries.take(i)) <= sum_lens(entries),
    decreases entries.len(),
{
    if i == entries.len() {
        assert(entries.take(i) =~= entries);
    } else {
        assert(entries.drop_last().take(i) =~= entries.take(i));
        lemma_sum_lens_take_le(entries.drop_last(), i);
    }
}

/// The summed byte lengths of screenshot entries.
spec fn sum_lens(entries: Seq<(Seq<char>, Seq<u8>)>) -> int
    decreases entries.len(),
{
    if entries.len() == 0 {
        0
    } else {
        sum_lens(entries.drop_last()) + entries.last().1.len()
    }
}

/// With distinct names, the model's total byte count is the summed lengths of
/// the entries.
proof fn lemma_total_bytes_is_sum(entries: Seq<(Seq<char>, Seq<u8>)>)
    requires
        distinct_keys(entries),
    ensures
        total_bytes(map_of(entries)) == sum_lens(entries),
        map_of(entries).kv_pairs().finite(),
    decreases entries.len(),
{
    if entries.len() == 0 {
        lemma_total_bytes_empty();
        assert(map_of(entries).kv_pairs() =~= Set::<(Seq<char>, Seq<u8>)>::empty());
    } else {
        lemma_total_bytes_is_sum(entries.drop_last());
        lemma_map_of_absent(entries.drop_last(), entries.last().0);
        lemma_total_bytes_insert_fresh(
            map_of(entries.drop_last()),
            entries.last().0,
            entries.last().1,
        );
    }
}

} // verus!
