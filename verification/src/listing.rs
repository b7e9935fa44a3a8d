//! Aggregation over a directory listing.
//!
//! A host enumerates the screenshots directory at its filesystem edge and
//! hands the raw entries over; the selection of file names and the count and
//! byte-size tally are computed and verified here.

use vstd::prelude::*;

verus! {

/// One directory entry as the filesystem edge reports it: its name, whether
/// it is a regular file, and its size in bytes.
pub struct EntryInfo {
    pub name: String,
    pub is_file: bool,
    pub size: u64,
}

/// The entries that are regular files, in listing order.
pub open spec fn file_entries(entries: Seq<EntryInfo>) -> Seq<EntryInfo> {
    entries.filter(|e: EntryInfo| e.is_file)
}

/// The names of the regular files, in listing order.
pub open spec fn file_names_of(entries: Seq<EntryInfo>) -> Seq<Seq<char>> {
    file_entries(entries).map_values(|e: EntryInfo| e.name@)
}

/// The summed sizes of the regular files.
pub open spec fn sum_file_sizes(entries: Seq<EntryInfo>) -> int
    decreases entries.len(),
{
    if entries.len() == 0 {
        0
    } else {
        sum_file_sizes(entries.drop_last()) + if entries.last().is_file {
            entries.last().size as int
        } else {
            0
        }
    }
}

/// The names of the regular files among the entries, in listing order;
/// entries that are not regular files are left out.
pub fn file_names(entries: &Vec<EntryInfo>) -> (names: Vec<String>)
    ensures
        names@.map_values(|s: String| s@) == file_names_of(entries@),
{
    let mut names: Vec<String> = Vec::new();
    let mut i: usize = 0;
    while i < entries.len()
        invariant
            i <= entries@.len(),
            names@.map_values(|s: String| s@) == file_names_of(entries@.take(i as int)),
        decreases entries@.len() - i,
    {
        proof {
            assert(entries@.take(i + 1).drop_last() =~= entries@.take(i as int));
            assert(entries@.take(i + 1).last() == entries@[i as int]);
            reveal(Seq::filter);
        }
        if entries[i].is_file {
            let ghost names0 = names@;
            names.push(entries[i].name.clone());
            proof {
                reveal(Seq::filter);
                assert(file_entries(entries@.take(i + 1)) =~= file_entries(
                    entries@.take(i as int),
                ).push(entries@[i as int]));
                assert(names@ == names0.push(entries@[i as int].name));
                assert(names0.len() == file_entries(entries@.take(i as int)).len()) by {
                    assert(names0.map_values(|s: String| s@).len() == names0.len());
                }
                assert forall|j: int| 0 <= j < names@.len() implies (#[trigger] names@[j])@
                    == file_names_of(entries@.take(i + 1))[j] by {
                    let fe = file_entries(entries@.take(i as int));
                    assert(file_names_of(entries@.take(i + 1))[j] == file_entries(
                        entries@.take(i + 1),
                    )[j].name@);
                    if j < names0.len() {
                        assert(names@[j] == names0[j]);
                        assert(file_entries(entries@.take(i + 1))[j] == fe[j]);
                        assert(names0.map_values(|s: String| s@)[j] == names0[j]@);
                        assert(file_names_of(entries@.take(i as int))[j] == fe[j].name@);
                    } else {
                        assert(names@[j] == entries@[i as int].name);
                        assert(file_entries(entries@.take(i + 1))[j] == entries@[i as int]);
                    }
                    assert(names@.map_values(|s: String| s@)[j] == names@[j]@);
                }
                assert(names@.map_values(|s: String| s@) =~= file_names_of(entries@.take(i + 1)));
            }
        } else {
            proof {
                reveal(Seq::filter);
                assert(file_entries(entries@.take(i + 1)) =~= file_entries(
                    entries@.take(i as int),
                ));
            }
        }
        i += 1;
    }
    proof {
        assert(entries@.take(entries@.len() as int) =~= entries@);
    }
    names
}

/// The summed sizes of a prefix never exceed those of the whole listing.
proof fn lemma_sum_file_sizes_take_le(entries: Seq<EntryInfo>, i: int)
    requires
        0 <= i <= entries.len(),
    ensures
        sum_file_sizes(entries.take(i)) <= sum_file_sizes(entries),
    decreases entries.len(),
{
    if i == entries.len() {
        assert(entries.take(i) =~= entries);
    } else {
        assert(entries.drop_last().take(i) =~= entries.take(i));
        lemma_sum_file_sizes_take_le(entries.drop_last(), i);
    }
}

/// Count the regular files among the entries and sum their sizes; `None`
/// exactly when the true sum does not fit in a 64-bit total.
pub fn tally_stats(entries: &Vec<EntryInfo>) -> (r: Option<(usize, u64)>)
    ensures
        match r {
            Some(t) => t.0 == file_entries(entries@).len() && t.1 == sum_file_sizes(entries@)
                && sum_file_sizes(entries@) <= u64::MAX,
            None => sum_file_sizes(entries@) > u64::MAX,
        },
{
    let mut count: usize = 0;
    let mut total: u64 = 0;
    let mut i: usize = 0;
    while i < entries.len()
        invariant
            i <= entries@.len(),
            count == file_entries(entries@.take(i as int)).len(),
            count <= i,
            total == sum_file_sizes(entries@.take(i as int)),
        decreases entries@.len() - i,
    {
        proof {
            assert(entries@.take(i + 1).drop_last() =~= entries@.take(i as int));
            assert(entries@.take(i + 1).last() == entries@[i as int]);
            reveal(Seq::filter);
        }
        if entries[i].is_file {
            let size = entries[i].size;
            if size > u64::MAX - total {
                proof {
                    lemma_sum_file_sizes_take_le(entries@, i + 1);
                }
                return None;
            }
            count = count + 1;
            total = total + size;
            proof {
                reveal(Seq::filter);
                assert(file_entries(entries@.take(i + 1)) =~= file_entries(
                    entries@.take(i as int),
                ).push(entries@[i as int]));
            }
        } else {
            proof {
                reveal(Seq::filter);
                assert(file_entries(entries@.take(i + 1)) =~= file_entries(
                    entries@.take(i as int),
                ));
            }
        }
        i += 1;
    }
    proof {
        assert(entries@.take(entries@.len() as int) =~= entries@);
    }
    Some((count, total))
}

} // verus!
