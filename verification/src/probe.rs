//! The BOT Chain probe's scan plan: how far back it looks, and the block ranges it asks
//! for, each narrow enough for a public node to answer.
use vstd::prelude::*;

use crate::presence::{parse_unsigned, parse_unsigned_exec};
use crate::text::chars_of;

verus! {

/// The widest `eth_getLogs` range asked for at once; public nodes commonly refuse wider.
pub const CHUNK: u64 = 500;

/// Blocks scanned when `--blocks` is not given: about an hour of history.
pub const DEFAULT_BLOCKS: u64 = 5_000;

/// The ranges that cover `from..head`, `CHUNK` blocks at a time: each starts where the
/// last ended, and the last may be shorter.
pub open spec fn ranges_spec(from: u64, head: u64) -> Seq<(u64, u64)>
    decreases head - from,
{
    if from >= head {
        Seq::empty()
    } else {
        let end = if from + CHUNK < head { (from + CHUNK) as u64 } else { head };
        seq![(from, end)] + ranges_spec(end, head)
    }
}

/// The first block scanned: `blocks` before the head, or block 0.
pub fn scan_start(head: u64, blocks: u64) -> (from: u64)
    ensures
        from == (if blocks <= head { head - blocks } else { 0 }),
{
    head.saturating_sub(blocks)
}

/// The block ranges to ask for, as `ranges_spec` says.
pub fn scan_ranges(from: u64, head: u64) -> (v: Vec<(u64, u64)>)
    ensures
        v@ == ranges_spec(from, head),
{
    let mut v: Vec<(u64, u64)> = Vec::new();
    let mut start = from;
    while start < head
        invariant
            from <= start || from >= head,
            start >= head ==> v@ == ranges_spec(from, head),
            start < head ==> v@ + ranges_spec(start, head) == ranges_spec(from, head),
        decreases head - start,
    {
        let end = if head - start > CHUNK { start + CHUNK } else { head };
        proof {
            assert(ranges_spec(start, head) == seq![(start, end)] + ranges_spec(end, head));
        }
        let ghost before = v@;
        v.push((start, end));
        assert(v@ + ranges_spec(end, head) =~= before + ranges_spec(start, head));
        start = end;
    }
    proof {
        if from >= head {
            assert(v@ =~= ranges_spec(from, head));
        } else {
            assert(ranges_spec(start, head) =~= Seq::<(u64, u64)>::empty());
            assert(v@ =~= v@ + ranges_spec(start, head));
        }
    }
    v
}

/// The scan covers the window exactly: the ranges are non-empty, at most `CHUNK` wide,
/// the first starts at `from`, each starts where the one before ended, and the last ends
/// at the head. No block is skipped and none is asked for twice.
pub proof fn ranges_tile_the_window(from: u64, head: u64)
    ensures
        ({
            let r = ranges_spec(from, head);
            &&& from >= head ==> r.len() == 0
            &&& from < head ==> r.len() > 0 && r[0].0 == from && r.last().1 == head
            &&& forall|i: int| #![trigger r[i]] 0 <= i < r.len() ==> r[i].0 < r[i].1 <= r[i].0 + CHUNK
            &&& forall|i: int, j: int| #![trigger r[i], r[j]] 0 <= i && j == i + 1 && j < r.len() ==> r[i].1 == r[j].0
        }),
    decreases head - from,
{
    if from < head {
        let end = if from + CHUNK < head { (from + CHUNK) as u64 } else { head };
        ranges_tile_the_window(end, head);
        let rest = ranges_spec(end, head);
        let r = ranges_spec(from, head);
        assert(r == seq![(from, end)] + rest);
        assert forall|i: int| #![trigger r[i]] 0 <= i < r.len() implies r[i].0 < r[i].1 <= r[i].0 + CHUNK by {
            if i > 0 {
                assert(r[i] == rest[i - 1]);
            }
        }
        assert forall|i: int, j: int| #![trigger r[i], r[j]] 0 <= i && j == i + 1 && j < r.len() implies r[i].1 == r[j].0 by {
            if i > 0 {
                assert(r[i] == rest[i - 1] && r[j] == rest[i]);
            } else {
                assert(r[1] == rest[0]);
            }
        }
        if rest.len() > 0 {
            assert(r.last() == rest.last());
        }
    }
}

/// The `--blocks` argument: the value after the first `--blocks`, read as a `u64`, or
/// `DEFAULT_BLOCKS` when there is none or it does not read.
pub open spec fn blocks_arg_spec(args: Seq<Seq<char>>) -> u64 {
    if exists|i: int| 0 <= i < args.len() && args[i] == "--blocks"@ {
        let i = choose|i: int|
            0 <= i < args.len() && args[i] == "--blocks"@ && forall|j: int| 0 <= j < i ==> args[j] != "--blocks"@;
        if i + 1 < args.len() {
            match parse_unsigned(args[i + 1], u64::MAX) {
                Some(v) => v,
                None => DEFAULT_BLOCKS,
            }
        } else {
            DEFAULT_BLOCKS
        }
    } else {
        DEFAULT_BLOCKS
    }
}

/// Read `--blocks` from the command line, as `blocks_arg_spec` says.
pub fn blocks_arg(args: &Vec<String>) -> (n: u64)
    ensures
        n == blocks_arg_spec(args@.map_values(|a: String| a@)),
{
    proof {
        reveal_strlit("--blocks");
    }
    let ghost av = args@.map_values(|a: String| a@);
    let flag = chars_of("--blocks");
    let mut i: usize = 0;
    while i < args.len()
        invariant
            i <= args@.len(),
            av == args@.map_values(|a: String| a@),
            flag@ == "--blocks"@,
            forall|j: int| 0 <= j < i ==> av[j] != "--blocks"@,
        decreases args@.len() - i,
    {
        let a = chars_of(args[i].as_str());
        if crate::control::same_chars(&a, &flag) {
            proof {
                let k = choose|k: int|
                    0 <= k < av.len() && av[k] == "--blocks"@ && forall|j: int| 0 <= j < k ==> av[j] != "--blocks"@;
                assert(av[i as int] == "--blocks"@);
                if k < i {
                    assert(av[k] != "--blocks"@);
                } else if k > i {
                    assert(av[i as int] != "--blocks"@);
                }
            }
            if i + 1 < args.len() {
                let v = chars_of(args[i + 1].as_str());
                assert(v@.subrange(0, v@.len() as int) =~= v@);
                assert(av[i + 1] == args@[i + 1]@);
                return match parse_unsigned_exec(&v, 0, v.len(), u64::MAX) {
                    Some(n) => n,
                    None => DEFAULT_BLOCKS,
                };
            }
            return DEFAULT_BLOCKS;
        }
        i = i + 1;
    }
    DEFAULT_BLOCKS
}

} // verus!
