//! The trim pipeline: for one region container, every present chunk's
//! payload is decompressed and decoded, its time-active value is
//! extracted, and the chunk is kept only when that value is strictly
//! greater than the configured threshold. Kept chunks are re-inserted,
//! still compressed, into a fresh container at their coordinates; a
//! container whose every chunk is dropped is deleted rather than
//! rewritten. Any transform or decode failure is fatal for the whole
//! file: nothing is written.

use vstd::prelude::*;
use vstd::multiset::Multiset;

use crate::anvil::{all_slots_readable, chunk_payload_spec, container_built, empty_container,
    lemma_empty_container_built, lemma_write_chunk_preserves, slot_empty, slot_index_spec,
    slot_readable, write_chunk_spec, AnvilData};
use crate::error::Error;
use crate::extract::{chunk_time_from_document, chunk_time_spec};
use crate::zlib::{inflate_of, zlib_decompress};

verus! {

/// A read-only trim configuration: the minimum time-active value for a
/// chunk to be kept, and the number of workers a directory's files are
/// partitioned across.
#[derive(Copy, Clone)]
pub struct TrimOptions {
    pub min_inhabited_time: i64,
    pub thread_count: usize,
}

impl TrimOptions {
    pub fn new(min_inhabited_time: i64, thread_count: usize) -> (r: Self)
        ensures
            r.min_inhabited_time == min_inhabited_time,
            r.thread_count == thread_count,
    {
        Self { min_inhabited_time, thread_count }
    }
}

/// What becomes of one container file after a successful trim pass:
/// replaced by the rebuilt container, or deleted because nothing was
/// kept.
pub enum TrimOutcome {
    Rebuilt(AnvilData),
    Delete,
}

/// What the trim pass decides for one slot of the source container:
/// the slot is empty, its chunk is dropped, its chunk is kept (with the
/// raw payload to re-insert and the decompressed size), or its chunk is
/// fatally malformed.
pub enum SlotVerdict {
    Absent,
    Drop,
    Keep { payload: Seq<u8>, usz: u32 },
    Fatal { err: Error },
}

/// The decision for slot `idx` of source container `src`: a present
/// chunk is decompressed and decoded, and kept exactly when its
/// time-active value is strictly greater than `threshold`.
pub open spec fn slot_verdict(src: Seq<u8>, threshold: i64, idx: int) -> SlotVerdict {
    if slot_empty(src, idx) {
        SlotVerdict::Absent
    } else {
        let payload = chunk_payload_spec(src, idx);
        match inflate_of(payload) {
            None => SlotVerdict::Fatal { err: Error::TransformFailed },
            Some(d) => if d.len() == 0 {
                SlotVerdict::Fatal { err: Error::TransformFailed }
            } else {
                match chunk_time_spec(d) {
                    Err(e) => SlotVerdict::Fatal { err: e },
                    Ok(time) => if time > threshold {
                        SlotVerdict::Keep { payload, usz: (d.len() % 0x100000000) as u32 }
                    } else {
                        SlotVerdict::Drop
                    },
                }
            },
        }
    }
}

/// The state of the trim pass after its first `n` iterations: the
/// rebuilt container bytes and the number of chunks kept, or the error
/// that aborted the pass. Iteration `i` visits coordinates
/// `(i / 32, i % 32)`. A kept chunk whose decompressed size exceeds 256
/// sectors fails, as does one that would push the rebuilt container
/// past what the slot header format can address.
pub open spec fn trim_fold(src: Seq<u8>, threshold: i64, n: int) -> Result<(Seq<u8>, int), Error>
    decreases n,
{
    if n <= 0 {
        Ok((empty_container(), 0))
    } else {
        match trim_fold(src, threshold, n - 1) {
            Err(e) => Err(e),
            Ok(st) => {
                let x = ((n - 1) / 32) as u32;
                let z = ((n - 1) % 32) as u32;
                match slot_verdict(src, threshold, slot_index_spec(x, z)) {
                    SlotVerdict::Absent => Ok(st),
                    SlotVerdict::Drop => Ok(st),
                    SlotVerdict::Fatal { err } => Err(err),
                    SlotVerdict::Keep { payload, usz } => {
                        if usz >> 12 > 256 {
                            Err(Error::SectorLimitExceeded)
                        } else if st.0.len() + payload.len() + 4101 >= 0x100000000 {
                            Err(Error::SectorLimitExceeded)
                        } else {
                            Ok((write_chunk_spec(st.0, x, z, payload, usz), st.1 + 1))
                        }
                    },
                }
            },
        }
    }
}

/// Once an iteration of the trim pass fails, every later state carries
/// the same error.
pub proof fn lemma_trim_fold_err(src: Seq<u8>, threshold: i64, m: int, n: int)
    requires
        0 <= m <= n,
        trim_fold(src, threshold, m) is Err,
    ensures
        trim_fold(src, threshold, n) == trim_fold(src, threshold, m),
    decreases n - m,
{
    if m < n {
        lemma_trim_fold_err(src, threshold, m, n - 1);
    }
}

/// Assesses one slot of the source container: nothing to do (empty or
/// dropped), a chunk to keep (its raw payload and decompressed size),
/// or a fatal failure.
fn assess_slot(reader: &AnvilData, x: u32, z: u32, threshold: i64) -> (r: Result<
    Option<(crate::Blob, u32)>,
    Error,
>)
    requires
        slot_readable(reader@, slot_index_spec(x, z)),
    ensures
        ({
            let v = slot_verdict(reader@, threshold, slot_index_spec(x, z));
            match r {
                Ok(opt) => match opt {
                    None => v is Absent || v is Drop,
                    Some(pu) => v == (SlotVerdict::Keep { payload: pu.0@, usz: pu.1 }),
                },
                Err(e) => v == (SlotVerdict::Fatal { err: e }),
            }
        }),
{
    let chunk_data = match reader.read_chunk(x, z) {
        Err(_) => { return Ok(None) },
        Ok(c) => c,
    };
    let decompressed = match zlib_decompress(chunk_data.as_slice()) {
        Ok(d) => d,
        Err(e) => { return Err(e) },
    };
    let time = match chunk_time_from_document(&decompressed) {
        Ok(t) => t,
        Err(e) => { return Err(e) },
    };
    if time > threshold {
        let uncompressed_size = ((decompressed.len() as u64) % 0x100000000) as u32;
        Ok(Some((chunk_data, uncompressed_size)))
    } else {
        Ok(None)
    }
}

/// Runs the trim pass over one source container: scans the full 32 by
/// 32 slot grid, re-inserts every kept chunk into a fresh container at
/// its coordinates, and reports whether the file is to be replaced by
/// the rebuilt container or deleted because nothing was kept. Any
/// transform or decode failure aborts the whole file, and nothing is
/// reported written. The source must have passed the slot bounds check:
/// an unreadable slot is a fatal bounds violation.
#[verifier::loop_isolation(false)]
#[verifier::rlimit(100)]
pub fn trim_region_data(reader: &AnvilData, options: TrimOptions) -> (r: Result<TrimOutcome, Error>)
    requires
        all_slots_readable(reader@),
    ensures
        match trim_fold(reader@, options.min_inhabited_time, 1024) {
            Err(e) => r == Err::<TrimOutcome, Error>(e),
            Ok(st) => match r {
                Ok(outcome) => match outcome {
                    TrimOutcome::Rebuilt(out) => st.1 > 0 && out@ == st.0 && all_slots_readable(
                        out@,
                    ),
                    TrimOutcome::Delete => st.1 == 0,
                },
                Err(_) => false,
            },
        },
{
    let ghost src = reader@;
    let threshold = options.min_inhabited_time;
    let mut writer = AnvilData::new();
    let mut chunk_count: u32 = 0;
    let mut i: u32 = 0;
    while i < 1024
        invariant
            i <= 1024,
            chunk_count <= i,
            trim_fold(src, threshold as i64, i as int) == Ok::<(Seq<u8>, int), Error>(
                (writer@, chunk_count as int),
            ),
            writer@.len() >= 8192,
            writer@.len() % 4096 == 0,
            writer@.len() < 0x100000000,
        decreases 1024 - i,
    {
        let x = i / 32;
        let z = i % 32;
        proof {
            assert(slot_readable(src, slot_index_spec(x, z)));
        }
        match assess_slot(reader, x, z, threshold) {
            Err(e) => {
                proof {
                    lemma_trim_fold_err(src, threshold as i64, i + 1, 1024);
                }
                return Err(e);
            },
            Ok(None) => {
                // the slot is empty or its chunk is dropped: nothing is written
            },
            Ok(Some(pu)) => {
                let (chunk_data, uncompressed_size) = pu;
                if uncompressed_size >> 12 > 256 {
                    proof {
                        lemma_trim_fold_err(src, threshold as i64, i + 1, 1024);
                    }
                    return Err(Error::SectorLimitExceeded);
                }
                if (writer.data_buffer.len() as u128) + (chunk_data.len() as u128) + 4101
                    >= 0x100000000 {
                    proof {
                        lemma_trim_fold_err(src, threshold as i64, i + 1, 1024);
                    }
                    return Err(Error::SectorLimitExceeded);
                }
                match writer.write_chunk(x, z, &chunk_data, uncompressed_size) {
                    Ok(_) => {},
                    Err(e) => {
                        return Err(e);
                    },
                }
                chunk_count = chunk_count + 1;
            },
        }
        i = i + 1;
    }
    if chunk_count > 0 {
        proof {
            lemma_trim_fold_slots(src, threshold as i64, 1024);
            crate::anvil::lemma_built_readable(writer@);
        }
        Ok(TrimOutcome::Rebuilt(writer))
    } else {
        Ok(TrimOutcome::Delete)
    }
}

/// How many of the files `0 .. n` fall to the group that takes indices
/// `g, g + gc, g + 2 gc, ...`.
pub open spec fn group_len(n: int, gc: int, g: int) -> int
    decreases n - g,
{
    if gc < 1 || g >= n || g < 0 {
        0
    } else if g + gc >= n {
        1
    } else {
        1 + group_len(n, gc, g + gc)
    }
}

/// The files of group `g` under a round-robin partition into `gc`
/// groups: the files at indices `g, g + gc, g + 2 gc, ...`, in order.
pub open spec fn group_spec(files: Seq<String>, gc: int, g: int) -> Seq<String> {
    Seq::new(group_len(files.len() as int, gc, g) as nat, |k: int| files[k * gc + g])
}

/// Partitions a directory's container files round-robin into
/// `group_count` worker groups: the file at position `j` goes to group
/// `j % group_count`. Each worker then processes its group in order.
#[verifier::loop_isolation(false)]
pub fn group_region_files(region_files: &Vec<String>, group_count: usize) -> (groups: Vec<
    Vec<String>,
>)
    requires
        group_count >= 1,
    ensures
        groups@.len() == group_count,
        forall|g: int|
            0 <= g < group_count ==> groups@[g]@ == group_spec(
                region_files@,
                group_count as int,
                g,
            ),
{
    let ghost n = region_files@.len() as int;
    let mut groups: Vec<Vec<String>> = Vec::new();
    let mut g: usize = 0;
    while g < group_count
        invariant
            g == groups@.len() <= group_count,
            forall|h: int|
                0 <= h < g ==> groups@[h]@ == group_spec(region_files@, group_count as int, h),
        decreases group_count - g,
    {
        let mut group: Vec<String> = Vec::new();
        let mut idx: usize = g;
        proof {
            assert(group@.len() == 0);
            assert(group@.len() * group_count == 0) by (nonlinear_arith)
                requires group@.len() == 0;
            assert(group@.len() * group_count + g == idx);
        }
        while idx < region_files.len()
            invariant
                g < group_count,
                idx >= g,
                group@.len() * group_count + g == idx || idx >= n,
                group_len(n, group_count as int, g as int) == group@.len() + group_len(
                    n,
                    group_count as int,
                    idx as int,
                ),
                forall|k: int|
                    0 <= k < group@.len() ==> group@[k] == region_files@[k * group_count + g],
            decreases n - idx,
        {
            let ghost k = group@.len() as int;
            proof {
                assert(k * group_count + g == idx);
                assert((k + 1) * (group_count as int) == k * (group_count as int)
                    + group_count) by (nonlinear_arith);
            }
            group.push(region_files[idx].clone());
            if region_files.len() - idx <= group_count {
                idx = region_files.len();
            } else {
                idx = idx + group_count;
            }
        }
        proof {
            assert(group@ =~= group_spec(region_files@, group_count as int, g as int));
        }
        groups.push(group);
        g = g + 1;
    }
    groups
}

/// The slot that iteration `i` of the trim pass visits.
pub open spec fn slot_of(i: int) -> int {
    slot_index_spec((i / 32) as u32, (i % 32) as u32)
}

/// Each iteration of the trim pass visits its own slot, and every slot
/// index is visited by some iteration.
pub proof fn lemma_slot_of_injective(i: int, j: int)
    requires
        0 <= i < 1024,
        0 <= j < 1024,
        i != j,
    ensures
        slot_of(i) != slot_of(j),
{
    vstd::arithmetic::div_mod::lemma_fundamental_div_mod(i, 32);
    vstd::arithmetic::div_mod::lemma_fundamental_div_mod(j, 32);
    vstd::arithmetic::div_mod::lemma_mod_bound(i, 32);
    vstd::arithmetic::div_mod::lemma_mod_bound(j, 32);
    if slot_of(i) == slot_of(j) {
        vstd::arithmetic::div_mod::lemma_fundamental_div_mod_converse(
            slot_of(i),
            32,
            i % 32,
            i / 32,
        );
        vstd::arithmetic::div_mod::lemma_fundamental_div_mod_converse(
            slot_of(j),
            32,
            j % 32,
            j / 32,
        );
    }
}

/// What a finished trim pass leaves in the rebuilt container: it is a
/// built container; every kept chunk stands at its original slot with
/// its original payload; every other slot is empty; and the kept count
/// is zero exactly when no chunk was kept, which decides deletion.
pub proof fn lemma_trim_fold_slots(src: Seq<u8>, threshold: i64, n: int)
    requires
        0 <= n <= 1024,
        trim_fold(src, threshold, n) is Ok,
    ensures
        ({
            let st = trim_fold(src, threshold, n).unwrap();
            &&& container_built(st.0)
            &&& 0 <= st.1 <= n
            &&& (st.1 == 0 <==> (forall|i: int|
                0 <= i < n ==> !(slot_verdict(src, threshold, #[trigger] slot_of(i)) is Keep)))
            &&& (forall|i: int|
                0 <= i < n ==> match slot_verdict(src, threshold, #[trigger] slot_of(i)) {
                    SlotVerdict::Keep { payload, usz } => !slot_empty(st.0, slot_of(i))
                        && chunk_payload_spec(st.0, slot_of(i)) == payload,
                    _ => slot_empty(st.0, slot_of(i)),
                })
            &&& (forall|i: int| n <= i < 1024 ==> slot_empty(st.0, #[trigger] slot_of(i)))
        }),
    decreases n,
{
    assert forall|i: int| 0 <= i < 1024 implies 0 <= #[trigger] slot_of(i) < 1024 by {
        vstd::arithmetic::div_mod::lemma_mod_bound(i, 32);
    }
    if n == 0 {
        lemma_empty_container_built();
    } else {
        lemma_trim_fold_slots(src, threshold, n - 1);
        let st0 = trim_fold(src, threshold, n - 1).unwrap();
        let st = trim_fold(src, threshold, n).unwrap();
        let x = ((n - 1) / 32) as u32;
        let z = ((n - 1) % 32) as u32;
        let idx = slot_index_spec(x, z);
        assert(idx == slot_of(n - 1));
        match slot_verdict(src, threshold, idx) {
            SlotVerdict::Absent => {
                assert(st == st0);
            },
            SlotVerdict::Drop => {
                assert(st == st0);
            },
            SlotVerdict::Fatal { err } => {
                assert(false);
            },
            SlotVerdict::Keep { payload, usz } => {
                lemma_write_chunk_preserves(st0.0, x, z, payload, usz);
                assert forall|i: int| 0 <= i < n - 1 implies slot_of(i) != idx by {
                    lemma_slot_of_injective(i, n - 1);
                }
                assert forall|i: int| n <= i < 1024 implies slot_of(i) != idx by {
                    lemma_slot_of_injective(i, n - 1);
                }
            },
        }
    }
}

/// The multiset of files held by a sequence of worker groups together.
pub open spec fn groups_multiset(groups: Seq<Seq<String>>) -> Multiset<String>
    decreases groups.len(),
{
    if groups.len() == 0 {
        Multiset::empty()
    } else {
        groups_multiset(groups.drop_last()).add(groups.last().to_multiset())
    }
}

/// The worker groups of a partition into `gc` groups, in order.
pub open spec fn groups_of(files: Seq<String>, gc: int) -> Seq<Seq<String>> {
    Seq::new(gc as nat, |g: int| group_spec(files, gc, g))
}

proof fn lemma_empty_to_multiset(s: Seq<String>)
    requires
        s.len() == 0,
    ensures
        s.to_multiset() == Multiset::<String>::empty(),
{
    s.to_multiset_ensures();
    vstd::multiset::lemma_multiset_empty_len(s.to_multiset());
}

/// Group lengths shift with the file window: the group taking indices
/// `g + gc, g + 2 gc, ...` of `n` files is as long as the one taking
/// `g, g + gc, ...` of the last `n - gc`.
proof fn lemma_group_len_shift(n: int, gc: int, g: int)
    requires
        gc >= 1,
        g >= 0,
    ensures
        group_len(n, gc, g + gc) == group_len(n - gc, gc, g),
    decreases n - g,
{
    if g + gc < n && g + 2 * gc < n {
        lemma_group_len_shift(n, gc, g + gc);
    }
}

proof fn lemma_group_len_nonneg(n: int, gc: int, g: int)
    requires
        gc >= 1,
    ensures
        group_len(n, gc, g) >= 0,
    decreases n - g,
{
    if g >= 0 && g < n && g + gc < n {
        lemma_group_len_nonneg(n, gc, g + gc);
    }
}

/// Every position of a group addresses a file inside the list.
proof fn lemma_group_len_bound(n: int, gc: int, g: int)
    requires
        gc >= 1,
        g >= 0,
    ensures
        forall|k: int| 0 <= k < group_len(n, gc, g) ==> #[trigger] (k * gc) + g < n,
    decreases n - g,
{
    if g < n && g + gc < n {
        lemma_group_len_shift(n, gc, g);
        lemma_group_len_bound(n, gc, g + gc);
        assert forall|k: int| 0 <= k < group_len(n, gc, g) implies #[trigger] (k * gc) + g < n by {
            if k == 0 {
                assert(0 * gc + g == g) by (nonlinear_arith);
            } else {
                assert((k - 1) * gc + (g + gc) == k * gc + g) by (nonlinear_arith);
            }
        }
    } else if g < n {
        assert forall|k: int| 0 <= k < group_len(n, gc, g) implies #[trigger] (k * gc) + g < n by {
            assert(group_len(n, gc, g) == 1);
            assert(0 * gc + g == g) by (nonlinear_arith);
        }
    }
}

/// A group is its first file followed by the same group of the files
/// past the first round of the rotation.
proof fn lemma_group_head(files: Seq<String>, gc: int, g: int)
    requires
        gc >= 1,
        0 <= g < gc,
    ensures
        ({
            let n = files.len() as int;
            let m = if n < gc {
                n
            } else {
                gc
            };
            let rest = files.subrange(m, n);
            group_spec(files, gc, g) == (if g < n {
                seq![files[g]] + group_spec(rest, gc, g)
            } else {
                Seq::<String>::empty()
            })
        }),
{
    let n = files.len() as int;
    let m = if n < gc {
        n
    } else {
        gc
    };
    let rest = files.subrange(m, n);
    if g < n {
        lemma_group_len_shift(n, gc, g);
        lemma_group_len_nonneg(n, gc, g);
        lemma_group_len_nonneg(rest.len() as int, gc, g);
        lemma_group_len_nonneg(n - gc, gc, g);
        assert(group_len(n, gc, g) == 1 + group_len(n - gc, gc, g));
        assert(group_len(rest.len() as int, gc, g) == group_len(n - gc, gc, g));
        lemma_group_len_bound(n, gc, g);
        lemma_group_len_bound(rest.len() as int, gc, g);
        let lhs = group_spec(files, gc, g);
        let rhs = seq![files[g]] + group_spec(rest, gc, g);
        assert(lhs.len() == rhs.len());
        assert forall|k: int| 0 <= k < lhs.len() implies lhs[k] == rhs[k] by {
            if k == 0 {
                assert(0 * gc + g == g) by (nonlinear_arith);
                assert(lhs[0] == files[g]);
            } else {
                assert((k - 1) * gc + g < rest.len());
                assert(k * gc + g == (k - 1) * gc + g + gc) by (nonlinear_arith);
                assert(k * gc + g < n);
                assert(rhs[k] == rest[(k - 1) * gc + g]);
                assert(rest[(k - 1) * gc + g] == files[m + ((k - 1) * gc + g)]);
            }
        }
        assert(lhs =~= rhs);
    } else {
        assert(group_spec(files, gc, g) =~= Seq::<String>::empty());
    }
}

/// The first `t` groups hold the first `min(t, n)` files plus whatever
/// the same `t` groups hold of the files past the first rotation round.
proof fn lemma_groups_ms_step(files: Seq<String>, gc: int, t: int)
    requires
        gc >= 1,
        0 <= t <= gc,
    ensures
        ({
            let n = files.len() as int;
            let m = if n < gc {
                n
            } else {
                gc
            };
            let rest = files.subrange(m, n);
            let mt = if n < t {
                n
            } else {
                t
            };
            groups_multiset(Seq::new(t as nat, |h: int| group_spec(files, gc, h)))
                == files.subrange(0, mt).to_multiset().add(
                groups_multiset(Seq::new(t as nat, |h: int| group_spec(rest, gc, h))),
            )
        }),
    decreases t,
{
    broadcast use vstd::multiset::group_multiset_axioms;

    let n = files.len() as int;
    let m = if n < gc {
        n
    } else {
        gc
    };
    let rest = files.subrange(m, n);
    let mt = if n < t {
        n
    } else {
        t
    };
    let full = Seq::new(t as nat, |h: int| group_spec(files, gc, h));
    let full_rest = Seq::new(t as nat, |h: int| group_spec(rest, gc, h));
    if t == 0 {
        lemma_empty_to_multiset(files.subrange(0, 0));
    } else {
        lemma_groups_ms_step(files, gc, t - 1);
        let mt0 = if n < t - 1 {
            n
        } else {
            t - 1
        };
        let prev = Seq::new((t - 1) as nat, |h: int| group_spec(files, gc, h));
        let prev_rest = Seq::new((t - 1) as nat, |h: int| group_spec(rest, gc, h));
        assert(full.drop_last() =~= prev);
        assert(full_rest.drop_last() =~= prev_rest);
        lemma_group_head(files, gc, t - 1);
        if t - 1 < n {
            assert(mt == t - 1 + 1 || mt == n);
            assert(mt0 == t - 1 || mt0 == n);
            assert(mt0 == t - 1);
            assert(mt == t);
            vstd::seq_lib::lemma_multiset_commutative(
                seq![files[t - 1]],
                group_spec(rest, gc, t - 1),
            );
            files.subrange(0, mt0).to_multiset_ensures();
            assert(files.subrange(0, mt) =~= files.subrange(0, mt0).push(files[t - 1]));
            seq![files[t - 1]].to_multiset_ensures();
            Seq::<String>::empty().to_multiset_ensures();
            lemma_empty_to_multiset(Seq::<String>::empty());
            assert(seq![files[t - 1]] =~= Seq::<String>::empty().push(files[t - 1]));
            assert(seq![files[t - 1]].to_multiset() =~= Multiset::<String>::empty().insert(
                files[t - 1],
            ));
            assert(groups_multiset(full) =~= files.subrange(0, mt).to_multiset().add(
                groups_multiset(full_rest),
            ));
        } else {
            assert(mt == mt0);
            assert(group_spec(files, gc, t - 1) == Seq::<String>::empty());
            assert(group_spec(rest, gc, t - 1) =~= Seq::<String>::empty());
            lemma_empty_to_multiset(Seq::<String>::empty());
            assert(groups_multiset(full) =~= files.subrange(0, mt).to_multiset().add(
                groups_multiset(full_rest),
            ));
        }
    }
}

/// Partition completeness: for any file list and any worker count of at
/// least one, the groups together hold exactly the original file list,
/// as a multiset; every file falls to exactly one group.
pub proof fn lemma_partition_complete(files: Seq<String>, gc: int)
    requires
        gc >= 1,
    ensures
        groups_multiset(groups_of(files, gc)) == files.to_multiset(),
    decreases files.len(),
{
    broadcast use vstd::multiset::group_multiset_axioms;

    let n = files.len() as int;
    let m = if n < gc {
        n
    } else {
        gc
    };
    let rest = files.subrange(m, n);
    lemma_groups_ms_step(files, gc, gc);
    assert(groups_of(files, gc) =~= Seq::new(gc as nat, |h: int| group_spec(files, gc, h)));
    if n == 0 {
        lemma_empty_to_multiset(files);
        lemma_empty_to_multiset(files.subrange(0, 0));
        assert(rest =~= files);
        assert forall|h: int| 0 <= h < gc implies group_spec(files, gc, h)
            =~= Seq::<String>::empty() by {}
        lemma_groups_ms_of_empties(Seq::new(gc as nat, |h: int| group_spec(files, gc, h)));
    } else {
        assert(m >= 1);
        lemma_partition_complete(rest, gc);
        assert(groups_of(rest, gc) =~= Seq::new(gc as nat, |h: int| group_spec(rest, gc, h)));
        vstd::seq_lib::lemma_multiset_commutative(files.subrange(0, m), rest);
        assert(files.subrange(0, m) + rest =~= files);
    }
}

proof fn lemma_groups_ms_of_empties(gs: Seq<Seq<String>>)
    requires
        forall|h: int| 0 <= h < gs.len() ==> gs[h].len() == 0,
    ensures
        groups_multiset(gs) == Multiset::<String>::empty(),
    decreases gs.len(),
{
    broadcast use vstd::multiset::group_multiset_axioms;

    if gs.len() > 0 {
        lemma_groups_ms_of_empties(gs.drop_last());
        lemma_empty_to_multiset(gs.last());
    }
}

/// Threshold boundary: among present chunks whose payload decompresses
/// and decodes, one whose time-active value equals the threshold is
/// dropped, and one whose value is strictly greater is kept.
pub proof fn lemma_threshold_boundary(src: Seq<u8>, threshold: i64, idx: int)
    requires
        !slot_empty(src, idx),
    ensures
        ({
            let v = slot_verdict(src, threshold, idx);
            match inflate_of(chunk_payload_spec(src, idx)) {
                Some(d) => d.len() > 0 ==> match chunk_time_spec(d) {
                    Ok(time) => (v is Keep <==> time > threshold) && (time == threshold ==> v
                        is Drop),
                    Err(_) => v is Fatal,
                },
                None => v is Fatal,
            }
        }),
{
}

/// File-level outcome, per coordinate: when the trim pass over `src`
/// succeeds, the rebuilt container exposes exactly the kept chunks, at
/// their original coordinates and with their original payloads, and
/// every other slot is empty; together with the kept count deciding
/// deletion, a container whose every chunk is dropped is deleted, and
/// one with a kept chunk is rewritten as a container that re-opens
/// readable.
pub proof fn lemma_trim_outcome_slots(src: Seq<u8>, threshold: i64, x: u32, z: u32)
    requires
        x < 32,
        z < 32,
        trim_fold(src, threshold, 1024) is Ok,
    ensures
        ({
            let st = trim_fold(src, threshold, 1024).unwrap();
            let idx = slot_index_spec(x, z);
            &&& all_slots_readable(st.0)
            &&& match slot_verdict(src, threshold, idx) {
                SlotVerdict::Keep { payload, usz } => !slot_empty(st.0, idx)
                    && chunk_payload_spec(st.0, idx) == payload,
                _ => slot_empty(st.0, idx),
            }
            &&& (st.1 == 0 <==> (forall|i: int|
                0 <= i < 1024 ==> !(slot_verdict(src, threshold, #[trigger] slot_of(i)) is Keep)))
        }),
{
    lemma_trim_fold_slots(src, threshold, 1024);
    let st = trim_fold(src, threshold, 1024).unwrap();
    crate::anvil::lemma_built_readable(st.0);
    let i = 32 * (x as int) + z;
    vstd::arithmetic::div_mod::lemma_fundamental_div_mod_converse(i, 32, x as int, z as int);
    assert(slot_of(i) == slot_index_spec(x, z));
}

} // verus!
