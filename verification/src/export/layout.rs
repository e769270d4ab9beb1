//! What holds of every file that the exporter writes: where its offsets
//! point and how it ends.

use crate::environment::Environment;
use crate::export::body::{term_body, term_header, thm_body, thm_header};
use crate::export::bytes::{le16, le32, le64, zeros};
use crate::export::cmd::ExportError;
use crate::export::container::{
    align8, container, magic, pad_to, sort_bytes, statements, term_entries, thm_entries,
    version_word,
};
use crate::expr::{Term, Thm};
use vstd::prelude::*;

verus! {

/// The number that the four bytes from `at` on hold, least significant
/// byte first.
#[verifier::opaque]
pub open spec fn read_le32(bytes: Seq<u8>, at: int) -> nat {
    (bytes[at] + 0x100 * bytes[at + 1] + 0x1_0000 * bytes[at + 2] + 0x100_0000 * bytes[at
        + 3]) as nat
}

/// The number that the eight bytes from `at` on hold, least significant
/// byte first.
pub open spec fn read_le64(bytes: Seq<u8>, at: int) -> nat {
    (read_le32(bytes, at) + 0x1_0000_0000 * read_le32(bytes, at + 4)) as nat
}

/// Reading the bytes of a number gives the number.
pub proof fn lemma_read_le32(n: u32)
    ensures
        read_le32(le32(n), 0) == n,
        le32(n).len() == 4,
{
    reveal(read_le32);
    let q1 = n / 0x100;
    let q2 = q1 / 0x100;
    let q3 = q2 / 0x100;
    assert(n == 0x100 * q1 + n % 0x100);
    assert(q1 == 0x100 * q2 + q1 % 0x100);
    assert(q2 == 0x100 * q3 + q2 % 0x100);
    assert(n / 0x1_0000 == q2);
    assert(n / 0x100_0000 == q3);
    assert(q3 < 0x100);
    let b = le32(n);
    assert(b[0] == n % 0x100);
    assert(b[1] == q1 % 0x100);
    assert(b[2] == q2 % 0x100);
    assert(b[3] == q3);
}

/// Reading the bytes of a number gives the number.
pub proof fn lemma_read_le64(n: u64)
    ensures
        read_le64(le64(n), 0) == n,
        le64(n).len() == 8,
{
    let lo = (n % 0x1_0000_0000) as u32;
    let hi = (n / 0x1_0000_0000) as u32;
    lemma_read_le32(lo);
    lemma_read_le32(hi);
    lemma_read_prefix(le32(lo), le32(hi), 0);
    lemma_read_suffix(le32(lo), le32(hi), 0);
}

/// The entry of a term holds the offset of its body in its last four
/// bytes.
proof fn lemma_term_header_pointer(nargs: u16, sort: crate::ids::SortID, has_def: bool, p: u32)
    ensures
        term_header(nargs, sort, has_def, p).len() == 8,
        read_le32(term_header(nargs, sort, has_def, p), 4) == p,
{
    let a = le16(nargs) + seq![
        sort.0 | (if has_def {
            0x80u8
        } else {
            0u8
        }),
        0u8,
    ];
    assert(a.len() == 4);
    lemma_read_le32(p);
    lemma_read_suffix(a, le32(p), 0);
}

/// The entry of a theorem holds the offset of its body in its last four
/// bytes.
proof fn lemma_thm_header_pointer(nargs: u16, p: u32)
    ensures
        thm_header(nargs, p).len() == 8,
        read_le32(thm_header(nargs, p), 4) == p,
{
    let a = le16(nargs) + seq![0u8, 0u8];
    assert(a.len() == 4);
    lemma_read_le32(p);
    lemma_read_suffix(a, le32(p), 0);
}

/// The body of a term takes at least 8 bytes.
proof fn lemma_term_body_len(t: Term)
    requires
        term_body(t) is Ok,
    ensures
        term_body(t)->Ok_0.0.len() >= 8,
{
    assert(le64(crate::export::body::sort_deps(false, t.ret.sort(), t.ret.deps())).len() == 8);
}

/// The body of a theorem takes at least one byte.
proof fn lemma_thm_body_len(t: Thm)
    requires
        thm_body(t) is Ok,
    ensures
        thm_body(t)->Ok_0.0.len() >= 1,
{
}

/// Bytes that stand at `at` in `a` are read there in `a + b` too.
proof fn lemma_read_prefix(a: Seq<u8>, b: Seq<u8>, at: int)
    requires
        0 <= at,
        at + 4 <= a.len(),
    ensures
        read_le32(a + b, at) == read_le32(a, at),
{
    reveal(read_le32);
}

/// Bytes that stand at `at` in `b` are read at `a.len() + at` in `a + b`.
proof fn lemma_read_suffix(a: Seq<u8>, b: Seq<u8>, at: int)
    requires
        0 <= at,
        at + 4 <= b.len(),
    ensures
        read_le32(a + b, a.len() + at) == read_le32(b, at),
{
    reveal(read_le32);
}

/// Whether the `k` entries of the table `hs`, whose bodies lie from
/// `start` on and take `len` bytes, each point to a multiple of 8 at which
/// at least `least` bytes of the bodies follow.
#[verifier::opaque]
pub open spec fn entries_point_inside(hs: Seq<u8>, k: nat, start: nat, len: nat, least: nat) -> bool {
    &&& hs.len() == 8 * k
    &&& forall|j: int|
        0 <= j < k ==> {
            let p = #[trigger] read_le32(hs, 8 * j + 4);
            p % 8 == 0 && start <= p && p + least <= start + len
        }
}

/// The next multiple of 8 is a multiple of 8, and less than 8 away.
proof fn lemma_align8(x: nat)
    ensures
        align8(x) % 8 == 0,
        x <= align8(x) < x + 8,
        align8(x) == x + pad_to(8, x),
{
}

/// A table whose entries point inside stays so when an entry that points
/// inside is added to it and the bodies grow.
proof fn lemma_entries_step(
    hs: Seq<u8>,
    k: nat,
    start: nat,
    len: nat,
    least: nat,
    hd: Seq<u8>,
    p: nat,
    new_len: nat,
)
    requires
        entries_point_inside(hs, k, start, len, least),
        hd.len() == 8,
        read_le32(hd, 4) == p,
        p % 8 == 0,
        start <= p,
        p + least <= start + new_len,
        len <= new_len,
    ensures
        entries_point_inside(hs + hd, k + 1, start, new_len, least),
{
    reveal(entries_point_inside);
    assert forall|j: int| 0 <= j < k + 1 implies ({
        let q = #[trigger] read_le32(hs + hd, 8 * j + 4);
        q % 8 == 0 && start <= q && q + least <= start + new_len
    }) by {
        if j < k {
            lemma_read_prefix(hs, hd, 8 * j + 4);
            let q = read_le32(hs, 8 * j + 4);
            assert(q % 8 == 0 && start <= q && q + least <= start + len);
        } else {
            lemma_read_suffix(hs, hd, 4);
        }
    }
}

/// Every entry of the table of terms points to a multiple of 8 within the
/// bodies of the terms.
pub proof fn lemma_term_entries_point_inside(terms: Seq<Term>, k: nat, start: nat)
    requires
        term_entries(terms, k, start) is Ok,
    ensures
        entries_point_inside(
            term_entries(terms, k, start)->Ok_0.0,
            k,
            start,
            term_entries(terms, k, start)->Ok_0.1.len(),
            8,
        ),
    decreases k,
{
    if k > 0 {
        lemma_term_entries_point_inside(terms, (k - 1) as nat, start);
        let prev = term_entries(terms, (k - 1) as nat, start)->Ok_0;
        let cur = term_entries(terms, k, start)->Ok_0;
        let t = terms[k - 1];
        let p = align8(start + prev.1.len());
        let hd = term_header(t.args@.len() as u16, t.ret.sort(), t.val is Some, p as u32);
        let b = term_body(t)->Ok_0.0;
        lemma_term_header_pointer(t.args@.len() as u16, t.ret.sort(), t.val is Some, p as u32);
        lemma_term_body_len(t);
        lemma_align8(start + prev.1.len());
        assert(cur.0 == prev.0 + hd);
        assert(cur.1 == prev.1 + zeros(pad_to(8, start + prev.1.len())) + b);
        lemma_entries_step(
            prev.0,
            (k - 1) as nat,
            start,
            prev.1.len(),
            8,
            hd,
            p,
            cur.1.len(),
        );
    } else {
        reveal(entries_point_inside);
    }
}

/// Every entry of the table of theorems points to a multiple of 8 within
/// the bodies of the theorems.
pub proof fn lemma_thm_entries_point_inside(thms: Seq<Thm>, k: nat, start: nat)
    requires
        thm_entries(thms, k, start) is Ok,
    ensures
        entries_point_inside(
            thm_entries(thms, k, start)->Ok_0.0,
            k,
            start,
            thm_entries(thms, k, start)->Ok_0.1.len(),
            1,
        ),
    decreases k,
{
    if k > 0 {
        lemma_thm_entries_point_inside(thms, (k - 1) as nat, start);
        let prev = thm_entries(thms, (k - 1) as nat, start)->Ok_0;
        let cur = thm_entries(thms, k, start)->Ok_0;
        let t = thms[k - 1];
        let p = align8(start + prev.1.len());
        let hd = thm_header(t.args@.len() as u16, p as u32);
        let b = thm_body(t)->Ok_0.0;
        lemma_thm_header_pointer(t.args@.len() as u16, p as u32);
        lemma_thm_body_len(t);
        lemma_align8(start + prev.1.len());
        assert(cur.0 == prev.0 + hd);
        assert(cur.1 == prev.1 + zeros(pad_to(8, start + prev.1.len())) + b);
        lemma_entries_step(
            prev.0,
            (k - 1) as nat,
            start,
            prev.1.len(),
            1,
            hd,
            p,
            cur.1.len(),
        );
    } else {
        reveal(entries_point_inside);
    }
}

/// The offsets that the start of the file `bytes` holds.
pub struct Offsets {
    pub p_terms: nat,
    pub p_thms: nat,
    pub p_proof: nat,
    pub p_index: nat,
}

/// The offsets that the start of the file `bytes` holds.
pub open spec fn offsets(bytes: Seq<u8>) -> Offsets {
    Offsets {
        p_terms: read_le32(bytes, 16),
        p_thms: read_le32(bytes, 20),
        p_proof: read_le64(bytes, 24),
        p_index: read_le64(bytes, 32),
    }
}

/// What holds of the file `bytes` of an environment with `nsorts` sorts,
/// `nterms` terms and `nthms` theorems.
///
/// The tables of terms and theorems start at multiples of 8, in this order
/// and behind the sorts; the proof section follows the theorems and lies
/// within the file; there is no index. Every entry of the two tables
/// points to a multiple of 8: that of a term into the bodies of the
/// terms, which end before the table of theorems, and that of a theorem
/// into the bodies of the theorems, which end before the proof section.
/// The file ends with a zero byte.
#[verifier::opaque]
pub open spec fn well_laid_out(bytes: Seq<u8>, nsorts: nat, nterms: nat, nthms: nat) -> bool {
    let o = offsets(bytes);
    &&& bytes.len() >= 41
    &&& o.p_terms % 8 == 0
    &&& o.p_thms % 8 == 0
    &&& o.p_index == 0
    &&& 40 + nsorts <= o.p_terms
    &&& o.p_terms + 8 * nterms <= o.p_thms
    &&& o.p_thms + 8 * nthms <= o.p_proof
    &&& o.p_proof < bytes.len()
    &&& bytes[bytes.len() - 1] == 0
    &&& forall|j: int|
        0 <= j < nterms ==> {
            let p = #[trigger] read_le32(bytes, o.p_terms + 8 * j + 4);
            p % 8 == 0 && o.p_terms + 8 * nterms <= p && p < o.p_thms
        }
    &&& forall|j: int|
        0 <= j < nthms ==> {
            let p = #[trigger] read_le32(bytes, o.p_thms + 8 * j + 4);
            p % 8 == 0 && o.p_thms + 8 * nthms <= p && p < o.p_proof
        }
}

/// Bytes that stand at `at` in the middle part of `a + m + c` are read at
/// `a.len() + at`.
proof fn lemma_read_middle(a: Seq<u8>, m: Seq<u8>, c: Seq<u8>, at: int)
    requires
        0 <= at,
        at + 4 <= m.len(),
    ensures
        read_le32(a + m + c, a.len() + at) == read_le32(m, at),
{
    reveal(read_le32);
}

/// A file that starts with 16 bytes and the bytes of four offsets holds
/// these offsets.
proof fn lemma_offsets(
    h16: Seq<u8>,
    p_terms: u32,
    p_thms: u32,
    p_proof: u64,
    p_index: u64,
    tail: Seq<u8>,
)
    requires
        h16.len() == 16,
    ensures
        offsets(h16 + le32(p_terms) + le32(p_thms) + le64(p_proof) + le64(p_index) + tail) == (
        Offsets {
            p_terms: p_terms as nat,
            p_thms: p_thms as nat,
            p_proof: p_proof as nat,
            p_index: p_index as nat,
        }),
{
    let bytes = h16 + le32(p_terms) + le32(p_thms) + le64(p_proof) + le64(p_index) + tail;
    lemma_read_le32(p_terms);
    lemma_read_le32(p_thms);
    lemma_read_le64(p_proof);
    lemma_read_le64(p_index);
    let a = le32(p_terms);
    let b = le32(p_thms);
    let c = le64(p_proof);
    let d = le64(p_index);
    assert(read_le32(bytes, 16) == p_terms) by {
        let r = b + c + d + tail;
        assert(bytes =~= h16 + a + r);
        lemma_read_middle(h16, a, r, 0);
    }
    assert(read_le32(bytes, 20) == p_thms) by {
        let l = h16 + a;
        let r = c + d + tail;
        assert(bytes =~= l + b + r);
        lemma_read_middle(l, b, r, 0);
    }
    assert(read_le64(bytes, 24) == p_proof) by {
        let l = h16 + a + b;
        let r = d + tail;
        assert(bytes =~= l + c + r);
        lemma_read_middle(l, c, r, 0);
        lemma_read_middle(l, c, r, 4);
    }
    assert(read_le64(bytes, 32) == p_index) by {
        let l = h16 + a + b + c;
        assert(bytes =~= l + d + tail);
        lemma_read_middle(l, d, tail, 0);
        lemma_read_middle(l, d, tail, 4);
    }
}

/// The entries of a table that point inside their bodies do so where the
/// table stands in a file.
proof fn lemma_entries_in_file(
    a: Seq<u8>,
    hs: Seq<u8>,
    rest: Seq<u8>,
    k: nat,
    start: nat,
    len: nat,
    least: nat,
    j: int,
)
    requires
        entries_point_inside(hs, k, start, len, least),
        0 <= j < k,
    ensures
        ({
            let p = read_le32(a + hs + rest, a.len() + 8 * j + 4);
            p % 8 == 0 && start <= p && p + least <= start + len
        }),
{
    reveal(entries_point_inside);
    lemma_read_middle(a, hs, rest, 8 * j + 4);
    let q = read_le32(hs, 8 * j + 4);
    assert(q % 8 == 0 && start <= q && q + least <= start + len);
}

/// A file that is put together from parts of the right lengths, with
/// tables whose entries point inside their bodies, is well laid out.
proof fn lemma_layout_parts(
    h16: Seq<u8>,
    p_terms: nat,
    p_thms: nat,
    p_proof: nat,
    sorts: Seq<u8>,
    pad1: Seq<u8>,
    th: Seq<u8>,
    tb: Seq<u8>,
    pad2: Seq<u8>,
    hh: Seq<u8>,
    hb: Seq<u8>,
    ps: Seq<u8>,
    nterms: nat,
    nthms: nat,
)
    requires
        h16.len() == 16,
        p_terms <= u32::MAX,
        p_thms <= u32::MAX,
        p_proof <= u64::MAX,
        p_terms == 40 + sorts.len() + pad1.len(),
        p_terms % 8 == 0,
        p_thms == p_terms + th.len() + tb.len() + pad2.len(),
        p_thms % 8 == 0,
        p_proof == p_thms + hh.len() + hb.len(),
        th.len() == 8 * nterms,
        hh.len() == 8 * nthms,
        entries_point_inside(th, nterms, p_terms + 8 * nterms, tb.len(), 8),
        entries_point_inside(hh, nthms, p_thms + 8 * nthms, hb.len(), 1),
    ensures
        well_laid_out(
            h16 + le32(p_terms as u32) + le32(p_thms as u32) + le64(p_proof as u64) + le64(0)
                + sorts + pad1 + th + tb + pad2 + hh + hb + ps + seq![0u8],
            sorts.len(),
            nterms,
            nthms,
        ),
{
    reveal(well_laid_out);
    let last = seq![0u8];
    let f1 = le32(p_terms as u32);
    let f2 = le32(p_thms as u32);
    let f3 = le64(p_proof as u64);
    let f4 = le64(0);
    let bytes = h16 + f1 + f2 + f3 + f4 + sorts + pad1 + th + tb + pad2 + hh + hb + ps + last;
    lemma_read_le32(p_terms as u32);
    lemma_read_le32(p_thms as u32);
    lemma_read_le64(p_proof as u64);
    lemma_read_le64(0);
    let o = offsets(bytes);
    assert(o.p_terms == p_terms && o.p_thms == p_thms && o.p_proof == p_proof && o.p_index == 0)
        by {
        let tail = sorts + pad1 + th + tb + pad2 + hh + hb + ps + last;
        assert(bytes =~= h16 + f1 + f2 + f3 + f4 + tail);
        lemma_offsets(h16, p_terms as u32, p_thms as u32, p_proof as u64, 0, tail);
    }
    let a = h16 + f1 + f2 + f3 + f4 + sorts + pad1;
    assert(a.len() == p_terms);
    let c = a + th + tb + pad2;
    assert(c.len() == p_thms);
    assert(bytes.len() == p_proof + ps.len() + 1);
    assert(bytes[bytes.len() - 1] == 0);
    assert forall|j: int| 0 <= j < nterms implies ({
        let p = #[trigger] read_le32(bytes, o.p_terms + 8 * j + 4);
        p % 8 == 0 && o.p_terms + 8 * nterms <= p && p < o.p_thms
    }) by {
        let rest = tb + pad2 + hh + hb + ps + last;
        assert(bytes =~= a + th + rest);
        lemma_entries_in_file(a, th, rest, nterms, p_terms + 8 * nterms, tb.len(), 8, j);
    }
    assert forall|j: int| 0 <= j < nthms implies ({
        let p = #[trigger] read_le32(bytes, o.p_thms + 8 * j + 4);
        p % 8 == 0 && o.p_thms + 8 * nthms <= p && p < o.p_proof
    }) by {
        let rest = hb + ps + last;
        assert(bytes =~= c + hh + rest);
        lemma_entries_in_file(c, hh, rest, nthms, p_thms + 8 * nthms, hb.len(), 1, j);
    }
}

/// The parts of a file take as many bytes as the file.
proof fn lemma_parts_len(
    h: Seq<u8>,
    sorts: Seq<u8>,
    pad1: Seq<u8>,
    th: Seq<u8>,
    tb: Seq<u8>,
    pad2: Seq<u8>,
    hh: Seq<u8>,
    hb: Seq<u8>,
    ps: Seq<u8>,
)
    ensures
        (h + sorts + pad1 + th + tb + pad2 + hh + hb + ps + seq![0u8]).len() == h.len()
            + sorts.len() + pad1.len() + th.len() + tb.len() + pad2.len() + hh.len() + hb.len()
            + ps.len() + 1,
{
}

/// The parts of the file that is written for an environment.
proof fn lemma_container_parts(env: Environment, bytes: Seq<u8>)
    requires
        container(env) == Ok::<Seq<u8>, ExportError>(bytes),
    ensures
        ({
            let nsorts = env.sorts@.len();
            let nterms = env.terms@.len();
            let nthms = env.thms@.len();
            let p_terms = align8(40 + nsorts);
            let t_start = p_terms + 8 * nterms;
            let te = term_entries(env.terms@, nterms, t_start);
            let p_thms = align8(t_start + te->Ok_0.1.len());
            let h_start = p_thms + 8 * nthms;
            let he = thm_entries(env.thms@, nthms, h_start);
            let p_proof = h_start + he->Ok_0.1.len();
            let ps = statements(env, env.stmts@.len());
            &&& nsorts <= 128
            &&& nterms <= u32::MAX
            &&& nthms <= u32::MAX
            &&& t_start <= u32::MAX
            &&& h_start <= u32::MAX
            &&& te is Ok
            &&& he is Ok
            &&& ps is Ok
            &&& bytes == magic() + le32(version_word(nsorts)) + le32(nterms as u32) + le32(
                nthms as u32,
            ) + le32(p_terms as u32) + le32(p_thms as u32) + le64(p_proof as u64) + le64(0)
                + sort_bytes(env.sorts@) + zeros(pad_to(8, 40 + nsorts)) + te->Ok_0.0
                + te->Ok_0.1 + zeros(pad_to(8, t_start + te->Ok_0.1.len())) + he->Ok_0.0
                + he->Ok_0.1 + ps->Ok_0 + seq![0u8]
        }),
{
    reveal(container);
}

/// Every file that is written for an environment, and is short enough
/// for its length to be a 64-bit number, is well laid out.
pub proof fn lemma_container_layout(env: Environment, bytes: Seq<u8>)
    requires
        container(env) == Ok::<Seq<u8>, ExportError>(bytes),
        bytes.len() <= u64::MAX,
    ensures
        well_laid_out(bytes, env.sorts@.len(), env.terms@.len(), env.thms@.len()),
{
    lemma_container_parts(env, bytes);
    let nsorts = env.sorts@.len();
    let nterms = env.terms@.len();
    let nthms = env.thms@.len();
    let p_terms = align8(40 + nsorts);
    let t_start = p_terms + 8 * nterms;
    let te = term_entries(env.terms@, nterms, t_start)->Ok_0;
    let p_thms = align8(t_start + te.1.len());
    let h_start = p_thms + 8 * nthms;
    let he = thm_entries(env.thms@, nthms, h_start)->Ok_0;
    let p_proof = h_start + he.1.len();
    let ps = statements(env, env.stmts@.len())->Ok_0;
    lemma_term_entries_point_inside(env.terms@, nterms, t_start);
    lemma_thm_entries_point_inside(env.thms@, nthms, h_start);
    crate::export::container::lemma_term_entries_len(env.terms@, nterms, t_start);
    crate::export::container::lemma_thm_entries_len(env.thms@, nthms, h_start);
    lemma_align8(40 + nsorts);
    lemma_align8(t_start + te.1.len());
    let h16 = magic() + le32(version_word(nsorts)) + le32(nterms as u32) + le32(nthms as u32);
    let sorts = sort_bytes(env.sorts@);
    let pad1 = zeros(pad_to(8, 40 + nsorts));
    let pad2 = zeros(pad_to(8, t_start + te.1.len()));
    let h40 = h16 + le32(p_terms as u32) + le32(p_thms as u32) + le64(p_proof as u64) + le64(0);
    assert(h16.len() == 16);
    assert(h40.len() == 40);
    lemma_parts_len(h40, sorts, pad1, te.0, te.1, pad2, he.0, he.1, ps);
    lemma_layout_parts(
        h16,
        p_terms,
        p_thms,
        p_proof,
        sorts,
        pad1,
        te.0,
        te.1,
        pad2,
        he.0,
        he.1,
        ps,
        nterms,
        nthms,
    );
}

/// The first four bytes of the entry of a term in the table of terms: the
/// number of its arguments, the sort of its result with the top bit set
/// for a definition, and a zero byte.
pub open spec fn term_head(t: Term) -> Seq<u8> {
    le16(t.args@.len() as u16) + seq![
        t.ret.sort().0 | (if t.val is Some {
            0x80u8
        } else {
            0u8
        }),
        0u8,
    ]
}

/// The first four bytes of the entry of a theorem in the table of
/// theorems: the number of its arguments and two zero bytes.
pub open spec fn thm_head(t: Thm) -> Seq<u8> {
    le16(t.args@.len() as u16) + seq![0u8, 0u8]
}

/// The first four bytes of the entries of the first `k` terms.
pub open spec fn term_heads(terms: Seq<Term>, k: nat) -> Seq<Seq<u8>> {
    Seq::new(k, |j: int| term_head(terms[j]))
}

/// The first four bytes of the entries of the first `k` theorems.
pub open spec fn thm_heads(thms: Seq<Thm>, k: nat) -> Seq<Seq<u8>> {
    Seq::new(k, |j: int| thm_head(thms[j]))
}

/// Whether the table `hs` holds one entry for each of `heads`, which
/// starts with it; and the offsets in the entries grow from entry to
/// entry and stay below `end`.
#[verifier::opaque]
pub open spec fn entries_in_order(hs: Seq<u8>, heads: Seq<Seq<u8>>, end: nat) -> bool {
    &&& hs.len() == 8 * heads.len()
    &&& forall|j: int|
        0 <= j < heads.len() ==> #[trigger] hs.subrange(8 * j, 8 * j + 4) == heads[j]
    &&& forall|j: int| 0 <= j < heads.len() ==> #[trigger] read_le32(hs, 8 * j + 4) < end
    &&& forall|i: int, j: int|
        0 <= i < j < heads.len() ==> #[trigger] read_le32(hs, 8 * i + 4) < #[trigger] read_le32(
            hs,
            8 * j + 4,
        )
}

/// A table that is in order stays so when an entry is added whose offset
/// is not below the end of what the entries before it point to.
proof fn lemma_in_order_step(
    hs: Seq<u8>,
    heads: Seq<Seq<u8>>,
    end: nat,
    hd: Seq<u8>,
    head: Seq<u8>,
    p: nat,
    new_end: nat,
)
    requires
        entries_in_order(hs, heads, end),
        hd.len() == 8,
        hd.subrange(0, 4) == head,
        read_le32(hd, 4) == p,
        end <= p < new_end,
    ensures
        entries_in_order(hs + hd, heads.push(head), new_end),
{
    reveal(entries_in_order);
    let k = heads.len() as int;
    let hs2 = hs + hd;
    let heads2 = heads.push(head);
    assert forall|j: int| 0 <= j < heads2.len() implies #[trigger] hs2.subrange(8 * j, 8 * j + 4)
        == heads2[j] by {
        if j < k {
            assert(hs2.subrange(8 * j, 8 * j + 4) =~= hs.subrange(8 * j, 8 * j + 4));
        } else {
            assert(hs2.subrange(8 * j, 8 * j + 4) =~= hd.subrange(0, 4));
        }
    }
    assert forall|j: int| 0 <= j < heads2.len() implies #[trigger] read_le32(hs2, 8 * j + 4)
        < new_end by {
        if j < k {
            lemma_read_prefix(hs, hd, 8 * j + 4);
            assert(read_le32(hs, 8 * j + 4) < end);
        } else {
            lemma_read_suffix(hs, hd, 4);
        }
    }
    assert forall|i: int, j: int| 0 <= i < j < heads2.len() implies #[trigger] read_le32(
        hs2,
        8 * i + 4,
    ) < #[trigger] read_le32(hs2, 8 * j + 4) by {
        lemma_read_prefix(hs, hd, 8 * i + 4);
        assert(read_le32(hs, 8 * i + 4) < end);
        if j < k {
            lemma_read_prefix(hs, hd, 8 * j + 4);
            assert(read_le32(hs, 8 * i + 4) < read_le32(hs, 8 * j + 4));
        } else {
            lemma_read_suffix(hs, hd, 4);
        }
    }
}

/// The entry of a term starts with the head of the term.
proof fn lemma_term_header_head(t: Term, p: u32)
    ensures
        term_header(t.args@.len() as u16, t.ret.sort(), t.val is Some, p).subrange(0, 4)
            == term_head(t),
{
    assert(term_header(t.args@.len() as u16, t.ret.sort(), t.val is Some, p).subrange(0, 4)
        =~= term_head(t));
}

/// The entry of a theorem starts with the head of the theorem.
proof fn lemma_thm_header_head(t: Thm, p: u32)
    ensures
        thm_header(t.args@.len() as u16, p).subrange(0, 4) == thm_head(t),
{
    assert(thm_header(t.args@.len() as u16, p).subrange(0, 4) =~= thm_head(t));
}

/// The table of terms holds the head of each term, and its offsets grow
/// from entry to entry.
pub proof fn lemma_term_entries_in_order(terms: Seq<Term>, k: nat, start: nat)
    requires
        term_entries(terms, k, start) is Ok,
    ensures
        entries_in_order(
            term_entries(terms, k, start)->Ok_0.0,
            term_heads(terms, k),
            start + term_entries(terms, k, start)->Ok_0.1.len(),
        ),
    decreases k,
{
    if k > 0 {
        lemma_term_entries_in_order(terms, (k - 1) as nat, start);
        let prev = term_entries(terms, (k - 1) as nat, start)->Ok_0;
        let cur = term_entries(terms, k, start)->Ok_0;
        let t = terms[k - 1];
        let p = align8(start + prev.1.len());
        let hd = term_header(t.args@.len() as u16, t.ret.sort(), t.val is Some, p as u32);
        let b = term_body(t)->Ok_0.0;
        lemma_term_header_pointer(t.args@.len() as u16, t.ret.sort(), t.val is Some, p as u32);
        lemma_term_header_head(t, p as u32);
        lemma_term_body_len(t);
        lemma_align8(start + prev.1.len());
        assert(cur.0 == prev.0 + hd);
        assert(cur.1 == prev.1 + zeros(pad_to(8, start + prev.1.len())) + b);
        assert(term_heads(terms, k) =~= term_heads(terms, (k - 1) as nat).push(term_head(t)));
        lemma_in_order_step(
            prev.0,
            term_heads(terms, (k - 1) as nat),
            start + prev.1.len(),
            hd,
            term_head(t),
            p,
            start + cur.1.len(),
        );
    } else {
        reveal(entries_in_order);
    }
}

/// The table of theorems holds the head of each theorem, and its offsets
/// grow from entry to entry.
pub proof fn lemma_thm_entries_in_order(thms: Seq<Thm>, k: nat, start: nat)
    requires
        thm_entries(thms, k, start) is Ok,
    ensures
        entries_in_order(
            thm_entries(thms, k, start)->Ok_0.0,
            thm_heads(thms, k),
            start + thm_entries(thms, k, start)->Ok_0.1.len(),
        ),
    decreases k,
{
    if k > 0 {
        lemma_thm_entries_in_order(thms, (k - 1) as nat, start);
        let prev = thm_entries(thms, (k - 1) as nat, start)->Ok_0;
        let cur = thm_entries(thms, k, start)->Ok_0;
        let t = thms[k - 1];
        let p = align8(start + prev.1.len());
        let hd = thm_header(t.args@.len() as u16, p as u32);
        let b = thm_body(t)->Ok_0.0;
        lemma_thm_header_pointer(t.args@.len() as u16, p as u32);
        lemma_thm_header_head(t, p as u32);
        lemma_thm_body_len(t);
        lemma_align8(start + prev.1.len());
        assert(cur.0 == prev.0 + hd);
        assert(cur.1 == prev.1 + zeros(pad_to(8, start + prev.1.len())) + b);
        assert(thm_heads(thms, k) =~= thm_heads(thms, (k - 1) as nat).push(thm_head(t)));
        lemma_in_order_step(
            prev.0,
            thm_heads(thms, (k - 1) as nat),
            start + prev.1.len(),
            hd,
            thm_head(t),
            p,
            start + cur.1.len(),
        );
    } else {
        reveal(entries_in_order);
    }
}

/// What holds of the two tables of the file `bytes` of an environment
/// with the terms `terms` and the theorems `thms`: the entry of each term
/// starts with the number of its arguments, the sort of its result with
/// the top bit set for a definition, and a zero byte; the entry of each
/// theorem starts with the number of its arguments and two zero bytes;
/// and in both tables the offsets of the bodies grow from entry to entry.
#[verifier::opaque]
pub open spec fn headers_hold(bytes: Seq<u8>, terms: Seq<Term>, thms: Seq<Thm>) -> bool {
    let o = offsets(bytes);
    &&& forall|j: int|
        0 <= j < terms.len() ==> #[trigger] bytes.subrange(
            o.p_terms + 8 * j,
            o.p_terms + 8 * j + 4,
        ) == term_head(terms[j])
    &&& forall|j: int|
        0 <= j < thms.len() ==> #[trigger] bytes.subrange(o.p_thms + 8 * j, o.p_thms + 8 * j + 4)
            == thm_head(thms[j])
    &&& forall|i: int, j: int|
        0 <= i < j < terms.len() ==> #[trigger] read_le32(bytes, o.p_terms + 8 * i + 4)
            < #[trigger] read_le32(bytes, o.p_terms + 8 * j + 4)
    &&& forall|i: int, j: int|
        0 <= i < j < thms.len() ==> #[trigger] read_le32(bytes, o.p_thms + 8 * i + 4)
            < #[trigger] read_le32(bytes, o.p_thms + 8 * j + 4)
}

/// What a table that is in order holds where it stands in a file.
proof fn lemma_in_order_in_file(
    a: Seq<u8>,
    hs: Seq<u8>,
    rest: Seq<u8>,
    heads: Seq<Seq<u8>>,
    end: nat,
)
    requires
        entries_in_order(hs, heads, end),
    ensures
        forall|j: int|
            0 <= j < heads.len() ==> #[trigger] (a + hs + rest).subrange(
                a.len() + 8 * j,
                a.len() + 8 * j + 4,
            ) == heads[j],
        forall|i: int, j: int|
            0 <= i < j < heads.len() ==> #[trigger] read_le32(a + hs + rest, a.len() + 8 * i + 4)
                < #[trigger] read_le32(a + hs + rest, a.len() + 8 * j + 4),
{
    reveal(entries_in_order);
    let bytes = a + hs + rest;
    assert forall|j: int| 0 <= j < heads.len() implies #[trigger] bytes.subrange(
        a.len() + 8 * j,
        a.len() + 8 * j + 4,
    ) == heads[j] by {
        assert(bytes.subrange(a.len() + 8 * j, a.len() + 8 * j + 4) =~= hs.subrange(
            8 * j,
            8 * j + 4,
        ));
    }
    assert forall|i: int, j: int| 0 <= i < j < heads.len() implies #[trigger] read_le32(
        bytes,
        a.len() + 8 * i + 4,
    ) < #[trigger] read_le32(bytes, a.len() + 8 * j + 4) by {
        lemma_read_middle(a, hs, rest, 8 * i + 4);
        lemma_read_middle(a, hs, rest, 8 * j + 4);
        assert(read_le32(hs, 8 * i + 4) < read_le32(hs, 8 * j + 4));
    }
}

/// A file that is put together from parts of the right lengths, with
/// tables that are in order, holds the heads of its terms and theorems.
proof fn lemma_headers_parts(
    h16: Seq<u8>,
    p_terms: nat,
    p_thms: nat,
    p_proof: nat,
    sorts: Seq<u8>,
    pad1: Seq<u8>,
    th: Seq<u8>,
    tb: Seq<u8>,
    pad2: Seq<u8>,
    hh: Seq<u8>,
    hb: Seq<u8>,
    ps: Seq<u8>,
    terms: Seq<Term>,
    thms: Seq<Thm>,
    tend: nat,
    hend: nat,
)
    requires
        h16.len() == 16,
        p_terms <= u32::MAX,
        p_thms <= u32::MAX,
        p_proof <= u64::MAX,
        p_terms == 40 + sorts.len() + pad1.len(),
        p_thms == p_terms + th.len() + tb.len() + pad2.len(),
        entries_in_order(th, term_heads(terms, terms.len()), tend),
        entries_in_order(hh, thm_heads(thms, thms.len()), hend),
    ensures
        headers_hold(
            h16 + le32(p_terms as u32) + le32(p_thms as u32) + le64(p_proof as u64) + le64(0)
                + sorts + pad1 + th + tb + pad2 + hh + hb + ps + seq![0u8],
            terms,
            thms,
        ),
{
    reveal(headers_hold);
    let last = seq![0u8];
    let f1 = le32(p_terms as u32);
    let f2 = le32(p_thms as u32);
    let f3 = le64(p_proof as u64);
    let f4 = le64(0);
    let bytes = h16 + f1 + f2 + f3 + f4 + sorts + pad1 + th + tb + pad2 + hh + hb + ps + last;
    lemma_read_le32(p_terms as u32);
    lemma_read_le32(p_thms as u32);
    lemma_read_le64(p_proof as u64);
    lemma_read_le64(0);
    let o = offsets(bytes);
    assert(o.p_terms == p_terms && o.p_thms == p_thms) by {
        let tail = sorts + pad1 + th + tb + pad2 + hh + hb + ps + last;
        assert(bytes =~= h16 + f1 + f2 + f3 + f4 + tail);
        lemma_offsets(h16, p_terms as u32, p_thms as u32, p_proof as u64, 0, tail);
    }
    let a = h16 + f1 + f2 + f3 + f4 + sorts + pad1;
    assert(a.len() == p_terms);
    let c = a + th + tb + pad2;
    assert(c.len() == p_thms);
    let rest1 = tb + pad2 + hh + hb + ps + last;
    let rest2 = hb + ps + last;
    assert(bytes =~= a + th + rest1);
    assert(bytes =~= c + hh + rest2);
    lemma_in_order_in_file(a, th, rest1, term_heads(terms, terms.len()), tend);
    lemma_in_order_in_file(c, hh, rest2, thm_heads(thms, thms.len()), hend);
}

/// In every file that is written for an environment, and is short enough
/// for its length to be a 64-bit number, the two tables hold the heads of
/// the terms and theorems, with offsets that grow from entry to entry.
pub proof fn lemma_container_headers(env: Environment, bytes: Seq<u8>)
    requires
        container(env) == Ok::<Seq<u8>, ExportError>(bytes),
        bytes.len() <= u64::MAX,
    ensures
        headers_hold(bytes, env.terms@, env.thms@),
{
    lemma_container_parts(env, bytes);
    let nsorts = env.sorts@.len();
    let nterms = env.terms@.len();
    let nthms = env.thms@.len();
    let p_terms = align8(40 + nsorts);
    let t_start = p_terms + 8 * nterms;
    let te = term_entries(env.terms@, nterms, t_start)->Ok_0;
    let p_thms = align8(t_start + te.1.len());
    let h_start = p_thms + 8 * nthms;
    let he = thm_entries(env.thms@, nthms, h_start)->Ok_0;
    let p_proof = h_start + he.1.len();
    let ps = statements(env, env.stmts@.len())->Ok_0;
    lemma_term_entries_in_order(env.terms@, nterms, t_start);
    lemma_thm_entries_in_order(env.thms@, nthms, h_start);
    crate::export::container::lemma_term_entries_len(env.terms@, nterms, t_start);
    crate::export::container::lemma_thm_entries_len(env.thms@, nthms, h_start);
    lemma_align8(40 + nsorts);
    lemma_align8(t_start + te.1.len());
    let h16 = magic() + le32(version_word(nsorts)) + le32(nterms as u32) + le32(nthms as u32);
    let sorts = sort_bytes(env.sorts@);
    let pad1 = zeros(pad_to(8, 40 + nsorts));
    let pad2 = zeros(pad_to(8, t_start + te.1.len()));
    let h40 = h16 + le32(p_terms as u32) + le32(p_thms as u32) + le64(p_proof as u64) + le64(0);
    assert(h16.len() == 16);
    assert(h40.len() == 40);
    lemma_parts_len(h40, sorts, pad1, te.0, te.1, pad2, he.0, he.1, ps);
    lemma_headers_parts(
        h16,
        p_terms,
        p_thms,
        p_proof,
        sorts,
        pad1,
        te.0,
        te.1,
        pad2,
        he.0,
        he.1,
        ps,
        env.terms@,
        env.thms@,
        t_start + te.1.len(),
        h_start + he.1.len(),
    );
}

} // verus!
