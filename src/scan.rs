//! The null-terminated scan: what one chunk contributes, when the scan stops,
//! and what the whole scan yields over a memory image.
use vstd::prelude::*;
use crate::os::ReadError;

verus! {

/// Bytes requested by each read of the null-terminated scan.
pub const PEEK_SIZE: usize = 32;

/// `s` holds no zero byte.
pub open spec fn no_zero(s: Seq<u8>) -> bool {
    forall|i: int| 0 <= i < s.len() ==> s[i] != 0
}

/// The first zero byte of `s` stands at offset `k`.
pub open spec fn first_zero_at(s: Seq<u8>, k: int) -> bool {
    0 <= k < s.len() && s[k] == 0 && no_zero(s.take(k))
}

/// `s` holds a zero byte.
pub open spec fn has_zero(s: Seq<u8>) -> bool {
    exists|k: int| first_zero_at(s, k)
}

/// What the scan keeps of a chunk: the bytes before its first zero, or the
/// whole chunk when it holds none.
pub open spec fn chunk_kept(c: Seq<u8>) -> Seq<u8> {
    if has_zero(c) {
        c.take(choose|k: int| first_zero_at(c, k))
    } else {
        c
    }
}

/// The scan stops after chunk `c`, read for `requested` bytes: it holds the
/// terminator, or it came back short.
pub open spec fn chunk_ends_scan(c: Seq<u8>, requested: nat) -> bool {
    has_zero(c) || c.len() < requested
}

/// The chunk that a read at offset `off` of a memory image `mem` delivers:
/// up to `PEEK_SIZE` bytes, fewer where the readable image ends.
pub open spec fn chunk_at(mem: Seq<u8>, off: nat) -> Seq<u8> {
    let end = if off + PEEK_SIZE <= mem.len() { off + PEEK_SIZE } else { mem.len() as int };
    mem.subrange(off as int, end)
}

/// What the scan returns when started at offset `off` of `mem`, where the
/// target's readable bytes from the start address on are exactly `mem`.
pub open spec fn scan_from(mem: Seq<u8>, off: nat) -> Seq<u8>
    decreases mem.len() - off,
{
    if off >= mem.len() {
        Seq::empty()
    } else {
        let c = chunk_at(mem, off);
        if chunk_ends_scan(c, PEEK_SIZE as nat) {
            chunk_kept(c)
        } else {
            c + scan_from(mem, (off + PEEK_SIZE) as nat)
        }
    }
}

/// The first zero byte of `s` has one place.
proof fn lemma_first_zero_unique(s: Seq<u8>, j: int, k: int)
    requires
        first_zero_at(s, j),
        first_zero_at(s, k),
    ensures
        j == k,
{
    if j < k {
        assert(s.take(k)[j] == s[j]);
    } else if k < j {
        assert(s.take(j)[k] == s[k]);
    }
}

/// A zero byte anywhere in `s` means that `s` has a first one.
proof fn lemma_zero_has_first(s: Seq<u8>, i: int)
    requires
        0 <= i < s.len(),
        s[i] == 0,
    ensures
        has_zero(s),
    decreases i,
{
    if no_zero(s.take(i)) {
        assert(first_zero_at(s, i));
    } else {
        let j = choose|j: int| 0 <= j < s.take(i).len() && s.take(i)[j] == 0;
        lemma_zero_has_first(s, j);
    }
}

/// A chunk whose first zero stands at `k` keeps its first `k` bytes.
proof fn lemma_chunk_kept_at(c: Seq<u8>, k: int)
    requires
        first_zero_at(c, k),
    ensures
        chunk_kept(c) == c.take(k),
{
    let j = choose|j: int| first_zero_at(c, j);
    lemma_first_zero_unique(c, j, k);
}

/// A chunk without a zero byte is kept whole.
proof fn lemma_chunk_kept_whole(c: Seq<u8>)
    requires
        no_zero(c),
    ensures
        !has_zero(c),
        chunk_kept(c) == c,
{
    if has_zero(c) {
        let k = choose|k: int| first_zero_at(c, k);
        assert(c[k] == 0);
    }
}

/// From any offset `off` at or before the terminator at `k`, the scan yields
/// the bytes from `off` up to the terminator.
proof fn lemma_scan_to_terminator(mem: Seq<u8>, k: int, off: nat)
    requires
        first_zero_at(mem, k),
        off <= k,
    ensures
        scan_from(mem, off) == mem.subrange(off as int, k),
    decreases mem.len() - off,
{
    let c = chunk_at(mem, off);
    if k < off + PEEK_SIZE {
        let j = k - off;
        assert forall|i: int| 0 <= i < j implies c.take(j)[i] != 0 by {
            assert(mem.take(k)[off + i] == mem[off + i]);
        }
        assert(first_zero_at(c, j));
        lemma_chunk_kept_at(c, j);
        assert(c.take(j) =~= mem.subrange(off as int, k));
    } else {
        assert forall|i: int| 0 <= i < c.len() implies c[i] != 0 by {
            assert(mem.take(k)[off + i] == mem[off + i]);
        }
        lemma_chunk_kept_whole(c);
        lemma_scan_to_terminator(mem, k, (off + PEEK_SIZE) as nat);
        assert(mem.subrange(off as int, k) =~= c + mem.subrange(off + PEEK_SIZE, k));
    }
}

/// From any offset `off`, over an image without a zero byte, the scan yields
/// every readable byte from `off` on.
proof fn lemma_scan_unterminated(mem: Seq<u8>, off: nat)
    requires
        no_zero(mem),
        off <= mem.len(),
    ensures
        scan_from(mem, off) == mem.subrange(off as int, mem.len() as int),
    decreases mem.len() - off,
{
    if off < mem.len() {
        let c = chunk_at(mem, off);
        assert forall|i: int| 0 <= i < c.len() implies c[i] != 0 by {
            assert(c[i] == mem[off + i]);
        }
        lemma_chunk_kept_whole(c);
        if c.len() == PEEK_SIZE {
            lemma_scan_unterminated(mem, (off + PEEK_SIZE) as nat);
            assert(mem.subrange(off as int, mem.len() as int) =~= c + mem.subrange(off + PEEK_SIZE, mem.len() as int));
        }
    } else {
        assert(mem.subrange(off as int, mem.len() as int) =~= Seq::<u8>::empty());
    }
}

/// A null-terminated scan returns exactly the bytes before the first zero,
/// wherever that zero falls relative to the chunk boundaries.
pub proof fn lemma_scan_truncates_at_terminator(mem: Seq<u8>, k: int)
    requires
        first_zero_at(mem, k),
    ensures
        scan_from(mem, 0) == mem.take(k),
{
    lemma_scan_to_terminator(mem, k, 0);
    assert(mem.subrange(0, k) =~= mem.take(k));
}

/// A string whose first byte is zero scans to the empty sequence.
pub proof fn lemma_scan_empty_string(mem: Seq<u8>)
    requires
        mem.len() > 0,
        mem[0] == 0,
    ensures
        scan_from(mem, 0) == Seq::<u8>::empty(),
{
    assert(first_zero_at(mem, 0));
    lemma_scan_truncates_at_terminator(mem, 0);
    assert(mem.take(0) =~= Seq::<u8>::empty());
}

/// Where the readable memory ends before any zero byte, the scan returns all
/// the readable bytes rather than failing.
pub proof fn lemma_scan_unterminated_keeps_all(mem: Seq<u8>)
    requires
        no_zero(mem),
    ensures
        scan_from(mem, 0) == mem,
{
    lemma_scan_unterminated(mem, 0);
    assert(mem.subrange(0, mem.len() as int) =~= mem);
}

/// What the scan keeps of a chunk holds no zero byte, and a chunk after
/// which the scan goes on was read in full.
pub(crate) proof fn lemma_kept_has_no_zero(c: Seq<u8>, requested: nat, done: bool)
    requires
        done == chunk_ends_scan(c, requested),
    ensures
        no_zero(chunk_kept(c)),
        !done ==> c.len() >= requested,
{
    if has_zero(c) {
        let k = choose|k: int| first_zero_at(c, k);
        lemma_chunk_kept_at(c, k);
    } else {
        assert forall|i: int| 0 <= i < c.len() implies c[i] != 0 by {
            if c[i] == 0 {
                lemma_zero_has_first(c, i);
            }
        }
    }
}

/// The position of the first zero byte of `s`, if any.
pub fn first_zero(s: &[u8]) -> (r: Option<usize>)
    ensures
        match r {
            Some(k) => first_zero_at(s@, k as int),
            None => no_zero(s@),
        },
{
    let mut i: usize = 0;
    while i < s.len()
        invariant
            i <= s@.len(),
            no_zero(s@.take(i as int)),
        decreases s@.len() - i,
    {
        if s[i] == 0 {
            return Some(i);
        }
        assert(s@.take(i as int + 1) =~= s@.take(i as int).push(s@[i as int]));
        i = i + 1;
    }
    assert(s@.take(i as int) =~= s@);
    None
}

/// Adds to `acc` what the scan keeps of `chunk`, which was read for
/// `requested` bytes, and tells whether the scan stops there.
pub fn absorb_chunk(acc: &mut Vec<u8>, chunk: &[u8], requested: usize) -> (done: bool)
    ensures
        final(acc)@ == old(acc)@ + chunk_kept(chunk@),
        done == chunk_ends_scan(chunk@, requested as nat),
{
    let (end, found) = match first_zero(chunk) {
        Some(k) => (k, true),
        None => (chunk.len(), false),
    };
    proof {
        if found {
            lemma_chunk_kept_at(chunk@, end as int);
        } else {
            lemma_chunk_kept_whole(chunk@);
            assert(chunk@.take(end as int) =~= chunk@);
        }
    }
    let ghost start = acc@;
    let mut i: usize = 0;
    while i < end
        invariant
            end <= chunk@.len(),
            i <= end,
            acc@ == start + chunk@.take(i as int),
        decreases end - i,
    {
        acc.push(chunk[i]);
        assert(chunk@.take(i as int + 1) =~= chunk@.take(i as int).push(chunk@[i as int]));
        i = i + 1;
    }
    found || chunk.len() < requested
}

/// Every read that `read` may make at an address `a` from `addr` on, up to
/// the end of `mem`, succeeds and delivers the chunk of `mem` at `a - addr`:
/// the target's readable bytes from `addr` on are exactly `mem`.
pub open spec fn reads_image<F: Fn(usize) -> Result<Vec<u8>, ReadError>>(
    read: F,
    addr: usize,
    mem: Seq<u8>,
) -> bool {
    &&& addr + mem.len() <= usize::MAX
    &&& forall|a: usize, r: Result<Vec<u8>, ReadError>|
        addr <= a <= addr + mem.len() && #[trigger] read.ensures((a,), r) ==> (r matches Ok(c)
            && c@ == chunk_at(mem, (a - addr) as nat))
}

/// Where a chunk was read at offset `off` of `mem`, the scan from `off` is
/// what the chunk keeps, followed, if the scan goes on, by the scan from the
/// next offset.
proof fn lemma_scan_step(mem: Seq<u8>, off: nat, done: bool)
    requires
        off <= mem.len(),
        done == chunk_ends_scan(chunk_at(mem, off), PEEK_SIZE as nat),
    ensures
        done ==> scan_from(mem, off) == chunk_kept(chunk_at(mem, off)),
        !done ==> off + PEEK_SIZE <= mem.len() && chunk_kept(chunk_at(mem, off)) == chunk_at(mem, off)
            && scan_from(mem, off) == chunk_at(mem, off) + scan_from(mem, (off + PEEK_SIZE) as nat),
{
    let c = chunk_at(mem, off);
    lemma_kept_has_no_zero(c, PEEK_SIZE as nat, done);
    if off == mem.len() {
        assert(c =~= Seq::<u8>::empty());
        lemma_chunk_kept_whole(c);
    }
    if !done {
        lemma_chunk_kept_whole(c);
    }
}

/// Scans the null-terminated byte string at `addr`, reading chunks of
/// `PEEK_SIZE` bytes through `read` and moving on by the count each read
/// delivered. Stops at the first zero byte, which is left out, or after a
/// short chunk; a failed read fails the whole scan. Where the reads deliver
/// a memory image faithfully, the result is the scan of that image.
pub fn scan_cstring<F: Fn(usize) -> Result<Vec<u8>, ReadError>>(read: F, addr: usize) -> (r: Result<Vec<u8>, ReadError>)
    requires
        forall|a: usize| read.requires((a,)),
    ensures
        r matches Ok(s) ==> no_zero(s@),
        r matches Err(e) ==> exists|a: usize| #[trigger] read.ensures((a,), Err::<Vec<u8>, ReadError>(e)),
        forall|mem: Seq<u8>| #[trigger] reads_image(read, addr, mem) ==> (r matches Ok(s) && s@ == scan_from(mem, 0)),
        forall|mem: Seq<u8>, k: int| #[trigger] reads_image(read, addr, mem) && #[trigger] first_zero_at(mem, k)
            ==> (r matches Ok(s) && s@ == mem.take(k)),
{
    let mut cur = addr;
    let mut res: Vec<u8> = Vec::new();
    proof {
        assert forall|mem: Seq<u8>| #[trigger] reads_image(read, addr, mem) implies scan_from(mem, 0)
            == res@ + scan_from(mem, 0) by {
            assert(res@ + scan_from(mem, 0) =~= scan_from(mem, 0));
        }
    }
    loop
        invariant_except_break
            forall|mem: Seq<u8>| #[trigger] reads_image(read, addr, mem) ==> cur - addr <= mem.len()
                && scan_from(mem, 0) == res@ + scan_from(mem, (cur - addr) as nat),
        invariant
            addr <= cur,
            forall|a: usize| read.requires((a,)),
            no_zero(res@),
        ensures
            no_zero(res@),
            forall|mem: Seq<u8>| #[trigger] reads_image(read, addr, mem) ==> scan_from(mem, 0) == res@,
        decreases usize::MAX - cur,
    {
        let chunk = match read(cur) {
            Ok(c) => c,
            Err(e) => {
                proof {
                    assert forall|mem: Seq<u8>| #[trigger] reads_image(read, addr, mem) implies false by {
                        assert(read.ensures((cur,), Err::<Vec<u8>, ReadError>(e)));
                    }
                }
                return Err(e);
            },
        };
        let ghost before = res@;
        let done = absorb_chunk(&mut res, chunk.as_slice(), PEEK_SIZE);
        let len = chunk.len();
        proof {
            lemma_kept_has_no_zero(chunk@, PEEK_SIZE as nat, done);
            assert(res@ =~= before + chunk_kept(chunk@));
            assert forall|mem: Seq<u8>| #[trigger] reads_image(read, addr, mem) implies (if done {
                scan_from(mem, 0) == res@
            } else {
                cur - addr + len <= mem.len() && len <= usize::MAX - cur
                    && scan_from(mem, 0) == res@ + scan_from(mem, (cur - addr + len) as nat)
            }) by {
                let off = (cur - addr) as nat;
                assert(read.ensures((cur,), Ok::<Vec<u8>, ReadError>(chunk)));
                assert(chunk@ == chunk_at(mem, off));
                lemma_scan_step(mem, off, done);
                if !done {
                    assert(scan_from(mem, 0) == before + (chunk@ + scan_from(mem, (off + PEEK_SIZE) as nat)));
                    assert(before + (chunk@ + scan_from(mem, (off + PEEK_SIZE) as nat))
                        =~= res@ + scan_from(mem, (off + PEEK_SIZE) as nat));
                }
            }
        }
        if done || len > usize::MAX - cur {
            break;
        }
        cur = cur + len;
    }
    proof {
        assert forall|mem: Seq<u8>, k: int| #[trigger] reads_image(read, addr, mem) && #[trigger] first_zero_at(mem, k)
            implies res@ == mem.take(k) by {
            lemma_scan_truncates_at_terminator(mem, k);
        }
    }
    Ok(res)
}

} // verus!
