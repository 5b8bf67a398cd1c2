//! The binary format, stated mathematically.
//!
//! `enc_*` gives the exact bit sequence each record serializes to; the
//! `sp_parse_*` family is the specification parser: a total function from a
//! bit stream and position to either the parsed value and the position after
//! it, or the precise error the stream deserves. The executable writers and
//! parsers are proved to follow these functions clause for clause, and the
//! lemmas in [`crate::laws`] prove the two directions compose.

use vstd::prelude::*;

verus! {

use vstd::arithmetic::power2::pow2;
use crate::bin::Bin;
use crate::bit_reader::sp_read;
use crate::bit_reader::sp_drain_byte;
use crate::bits::u_bits;
use crate::constants::Bitlen;
use crate::constants::AnsState;
use crate::constants::ANS_INTERLEAVING;
use crate::constants::BITS_TO_ENCODE_ANS_SIZE_LOG;
use crate::constants::BITS_TO_ENCODE_COMPRESSED_BODY_SIZE;
use crate::constants::BITS_TO_ENCODE_DELTA_ENCODING_ORDER;
use crate::constants::BITS_TO_ENCODE_MODE;
use crate::constants::BITS_TO_ENCODE_N_BINS;
use crate::constants::BITS_TO_ENCODE_N_ENTRIES;
use crate::constants::BITS_TO_ENCODE_OFFSET_BITS;
use crate::constants::MAX_DELTA_ENCODING_ORDER;
use crate::constants::U_BITS;
use crate::chunk_metadata::ChunkLatentMetadataV;
use crate::chunk_metadata::ChunkMetadataV;
use crate::chunk_metadata::PageLatentMetadataV;
use crate::chunk_metadata::PageMetadataV;
use crate::errors::CorruptionKind;
use crate::errors::PcoError;
use crate::modes::Mode;
use crate::modes::spec_mode_tag;
use crate::modes::spec_n_latents;
use crate::modes::spec_latent_delta_order;

// ---------------------------------------------------------------------------
// Well-formedness: exactly the values the format can carry and a parser will
// accept back.
// ---------------------------------------------------------------------------

/// A bin the format can store for `mode` under a table of `2^ans_size_log`
/// states.
pub open spec fn wf_bin(b: Bin, mode: Mode, ans_size_log: nat) -> bool {
    &&& 1 <= b.weight
    &&& ((b.weight - 1) as nat) < pow2(ans_size_log)
    &&& b.offset_bits <= U_BITS
    &&& (!(mode is Gcd && b.offset_bits > 0) ==> b.gcd == 1)
}

/// A latent's metadata the format can store for `mode`.
pub open spec fn wf_latent(l: ChunkLatentMetadataV, mode: Mode) -> bool {
    &&& (l.ans_size_log as nat) < pow2(BITS_TO_ENCODE_ANS_SIZE_LOG as nat)
    &&& l.bins.len() < pow2(BITS_TO_ENCODE_N_BINS as nat)
    &&& l.bins.len() <= pow2(l.ans_size_log as nat)
    &&& (l.bins.len() == 1 ==> l.ans_size_log == 0)
    &&& forall|i: int| 0 <= i < l.bins.len() ==> wf_bin(#[trigger] l.bins[i], mode, l.ans_size_log as nat)
}

/// A chunk's metadata the format can store.
pub open spec fn wf_chunk(c: ChunkMetadataV) -> bool {
    &&& (c.n as nat) < pow2(BITS_TO_ENCODE_N_ENTRIES as nat)
    &&& (c.compressed_body_size as nat) < pow2(BITS_TO_ENCODE_COMPRESSED_BODY_SIZE as nat)
    &&& c.delta_encoding_order <= MAX_DELTA_ENCODING_ORDER
    &&& c.latents.len() == spec_n_latents(c.mode)
    &&& forall|i: int| 0 <= i < c.latents.len() ==> wf_latent(#[trigger] c.latents[i], c.mode)
}

/// A page latent's metadata the format can store under a table of
/// `2^ans_size_log` states.
pub open spec fn wf_page_latent(pl: PageLatentMetadataV, ans_size_log: nat) -> bool {
    &&& pl.ans_final_state_idxs.len() == ANS_INTERLEAVING
    &&& forall|i: int|
        0 <= i < pl.ans_final_state_idxs.len() ==> (#[trigger] pl.ans_final_state_idxs[i] as nat)
            < pow2(ans_size_log)
}

/// A page's metadata consistent with its owning chunk: one latent per chunk
/// latent, each with the moments its delta order demands and final states
/// inside its ANS table.
pub open spec fn wf_page(p: PageMetadataV, c: ChunkMetadataV) -> bool {
    &&& p.latents.len() == c.latents.len()
    &&& forall|i: int|
        0 <= i < p.latents.len() ==> wf_page_latent(
            #[trigger] p.latents[i],
            c.latents[i].ans_size_log as nat,
        )
    &&& forall|i: int|
        0 <= i < p.latents.len() ==> (#[trigger] p.latents[i].delta_moments).len()
            == spec_latent_delta_order(c.mode, i as nat, c.delta_encoding_order as nat)
}

// ---------------------------------------------------------------------------
// Encoders: the exact serialized bits of each record.
// ---------------------------------------------------------------------------

/// Zero padding up to the next byte boundary after `len` bits.
pub open spec fn pad_to_byte(len: nat) -> nat {
    ((8 - len % 8) % 8) as nat
}

/// One bin: `weight - 1` at table width, `lower` at full width,
/// `offset_bits`, and — only in GCD mode with a nonzero offset — `gcd`.
pub open spec fn enc_bin(b: Bin, mode: Mode, ans_size_log: nat) -> Seq<bool> {
    u_bits((b.weight - 1) as nat, ans_size_log) + u_bits(b.lower as nat, U_BITS as nat) + u_bits(
        b.offset_bits as nat,
        BITS_TO_ENCODE_OFFSET_BITS as nat,
    ) + if mode is Gcd && b.offset_bits > 0 {
        u_bits(b.gcd as nat, U_BITS as nat)
    } else {
        Seq::empty()
    }
}

/// The bins one after the other.
pub open spec fn enc_bin_seq(bins: Seq<Bin>, mode: Mode, ans_size_log: nat) -> Seq<bool>
    decreases bins.len(),
{
    if bins.len() == 0 {
        Seq::empty()
    } else {
        enc_bin(bins[0], mode, ans_size_log) + enc_bin_seq(bins.drop_first(), mode, ans_size_log)
    }
}

/// A bin table: the bin count, then the bins.
pub open spec fn enc_bins(bins: Seq<Bin>, mode: Mode, ans_size_log: nat) -> Seq<bool> {
    u_bits(bins.len() as nat, BITS_TO_ENCODE_N_BINS as nat) + enc_bin_seq(bins, mode, ans_size_log)
}

/// One latent's chunk metadata: its table size log, then its bin table.
pub open spec fn enc_latent(l: ChunkLatentMetadataV, mode: Mode) -> Seq<bool> {
    u_bits(l.ans_size_log as nat, BITS_TO_ENCODE_ANS_SIZE_LOG as nat) + enc_bins(
        l.bins,
        mode,
        l.ans_size_log as nat,
    )
}

/// The latents one after the other.
pub open spec fn enc_latent_seq(ls: Seq<ChunkLatentMetadataV>, mode: Mode) -> Seq<bool>
    decreases ls.len(),
{
    if ls.len() == 0 {
        Seq::empty()
    } else {
        enc_latent(ls[0], mode) + enc_latent_seq(ls.drop_first(), mode)
    }
}

/// The mode tag, and for `FloatMult` the base's bit pattern right after it.
pub open spec fn enc_mode(m: Mode) -> Seq<bool> {
    u_bits(spec_mode_tag(m), BITS_TO_ENCODE_MODE as nat) + match m {
        Mode::FloatMult(base) => u_bits(base as nat, U_BITS as nat),
        _ => Seq::empty(),
    }
}

/// Chunk metadata before padding: sizes (standalone only), mode, delta
/// order, then every latent.
pub open spec fn enc_chunk_body(c: ChunkMetadataV, wrapped: bool) -> Seq<bool> {
    (if wrapped {
        Seq::empty()
    } else {
        u_bits(c.n as nat, BITS_TO_ENCODE_N_ENTRIES as nat) + u_bits(
            c.compressed_body_size as nat,
            BITS_TO_ENCODE_COMPRESSED_BODY_SIZE as nat,
        )
    }) + enc_mode(c.mode) + u_bits(
        c.delta_encoding_order as nat,
        BITS_TO_ENCODE_DELTA_ENCODING_ORDER as nat,
    ) + enc_latent_seq(c.latents, c.mode)
}

/// Chunk metadata as written at a byte boundary: the body, zero-padded to
/// the next byte boundary.
pub open spec fn enc_chunk(c: ChunkMetadataV, wrapped: bool) -> Seq<bool> {
    enc_chunk_body(c, wrapped) + u_bits(0, pad_to_byte(enc_chunk_body(c, wrapped).len()))
}

/// Delta moments, each at full width.
pub open spec fn enc_delta_moments(ms: Seq<u64>) -> Seq<bool>
    decreases ms.len(),
{
    if ms.len() == 0 {
        Seq::empty()
    } else {
        u_bits(ms[0] as nat, U_BITS as nat) + enc_delta_moments(ms.drop_first())
    }
}

/// Final ANS states, each at the table width.
pub open spec fn enc_states(sts: Seq<AnsState>, ans_size_log: nat) -> Seq<bool>
    decreases sts.len(),
{
    if sts.len() == 0 {
        Seq::empty()
    } else {
        u_bits(sts[0] as nat, ans_size_log) + enc_states(sts.drop_first(), ans_size_log)
    }
}

/// One latent's page metadata: its delta moments, then its final states.
pub open spec fn enc_page_latent(pl: PageLatentMetadataV, ans_size_log: nat) -> Seq<bool> {
    enc_delta_moments(pl.delta_moments) + enc_states(pl.ans_final_state_idxs, ans_size_log)
}

/// The page latents one after the other, each at its own table width.
pub open spec fn enc_page_latent_seq(
    pls: Seq<PageLatentMetadataV>,
    logs: Seq<Bitlen>,
    i: nat,
) -> Seq<bool>
    decreases pls.len() - i,
{
    if i >= pls.len() || i >= logs.len() {
        Seq::empty()
    } else {
        enc_page_latent(pls[i as int], logs[i as int] as nat) + enc_page_latent_seq(
            pls,
            logs,
            i + 1,
        )
    }
}

/// Page metadata as written at a byte boundary: every latent, zero-padded
/// to the next byte boundary.
pub open spec fn enc_page(p: PageMetadataV, logs: Seq<Bitlen>) -> Seq<bool> {
    enc_page_latent_seq(p.latents, logs, 0) + u_bits(
        0,
        pad_to_byte(enc_page_latent_seq(p.latents, logs, 0).len()),
    )
}

/// The per-latent ANS table size logs of a chunk, in latent order.
pub open spec fn chunk_ans_size_logs(c: ChunkMetadataV) -> Seq<Bitlen> {
    c.latents.map_values(|l: ChunkLatentMetadataV| l.ans_size_log)
}

// ---------------------------------------------------------------------------
// The specification parser.
// ---------------------------------------------------------------------------

/// Appending a bin appends its encoding.
pub proof fn lemma_enc_bin_seq_snoc(bs: Seq<Bin>, b: Bin, mode: Mode, ans_size_log: nat)
    ensures
        enc_bin_seq(bs.push(b), mode, ans_size_log) == enc_bin_seq(bs, mode, ans_size_log)
            + enc_bin(b, mode, ans_size_log),
    decreases bs.len(),
{
    let tail = enc_bin(b, mode, ans_size_log);
    if bs.len() == 0 {
        assert(bs.push(b).drop_first() =~= Seq::<Bin>::empty());
        assert(bs.push(b)[0] == b);
        assert(enc_bin_seq(Seq::<Bin>::empty(), mode, ans_size_log) =~= Seq::<bool>::empty());
        assert(enc_bin_seq(bs.push(b), mode, ans_size_log) == tail + enc_bin_seq(
            bs.push(b).drop_first(),
            mode,
            ans_size_log,
        ));
        assert(enc_bin_seq(bs.push(b), mode, ans_size_log) =~= enc_bin_seq(bs, mode, ans_size_log)
            + tail);
    } else {
        assert(bs.push(b).drop_first() =~= bs.drop_first().push(b));
        assert(bs.push(b)[0] == bs[0]);
        lemma_enc_bin_seq_snoc(bs.drop_first(), b, mode, ans_size_log);
        assert(enc_bin_seq(bs.push(b), mode, ans_size_log) == enc_bin(bs[0], mode, ans_size_log)
            + enc_bin_seq(bs.drop_first().push(b), mode, ans_size_log));
        assert(enc_bin_seq(bs, mode, ans_size_log) == enc_bin(bs[0], mode, ans_size_log)
            + enc_bin_seq(bs.drop_first(), mode, ans_size_log));
        assert(enc_bin_seq(bs.push(b), mode, ans_size_log) =~= enc_bin_seq(bs, mode, ans_size_log)
            + tail);
    }
}

/// Parses one bin.
pub open spec fn sp_parse_bin(s: Seq<bool>, pos: int, mode: Mode, ans_size_log: nat) -> Result<
    (Bin, int),
    PcoError,
> {
    match sp_read(s, pos, ans_size_log) {
        Err(e) => Err(e),
        Ok((w1, p1)) => match sp_read(s, p1, U_BITS as nat) {
            Err(e) => Err(e),
            Ok((lower, p2)) => match sp_read(s, p2, BITS_TO_ENCODE_OFFSET_BITS as nat) {
                Err(e) => Err(e),
                Ok((ob, p3)) => if ob > U_BITS {
                    Err(
                        PcoError::Corruption(
                            CorruptionKind::OffsetBitsTooLarge { offset_bits: ob as Bitlen },
                        ),
                    )
                } else if mode is Gcd && ob != 0 {
                    match sp_read(s, p3, U_BITS as nat) {
                        Err(e) => Err(e),
                        Ok((gcd, p4)) => Ok(
                            (
                                Bin {
                                    weight: (w1 + 1) as u32,
                                    lower: lower as u64,
                                    offset_bits: ob as Bitlen,
                                    gcd: gcd as u64,
                                },
                                p4,
                            ),
                        ),
                    }
                } else {
                    Ok(
                        (
                            Bin {
                                weight: (w1 + 1) as u32,
                                lower: lower as u64,
                                offset_bits: ob as Bitlen,
                                gcd: 1u64,
                            },
                            p3,
                        ),
                    )
                },
            },
        },
    }
}

/// Parses `count` bins one after the other.
pub open spec fn sp_parse_bin_seq(
    s: Seq<bool>,
    pos: int,
    mode: Mode,
    ans_size_log: nat,
    count: nat,
) -> Result<(Seq<Bin>, int), PcoError>
    decreases count,
{
    if count == 0 {
        Ok((Seq::empty(), pos))
    } else {
        match sp_parse_bin(s, pos, mode, ans_size_log) {
            Err(e) => Err(e),
            Ok((b, p1)) => match sp_parse_bin_seq(s, p1, mode, ans_size_log, (count - 1) as nat) {
                Err(e) => Err(e),
                Ok((rest, p2)) => Ok((seq![b] + rest, p2)),
            },
        }
    }
}

/// Parses a bin table: the count, its validation against the table size,
/// then the bins. Each validation failure is a distinct corruption signal.
pub open spec fn sp_parse_bins(s: Seq<bool>, pos: int, mode: Mode, ans_size_log: nat) -> Result<
    (Seq<Bin>, int),
    PcoError,
> {
    match sp_read(s, pos, BITS_TO_ENCODE_N_BINS as nat) {
        Err(e) => Err(e),
        Ok((n_bins, p1)) => if pow2(ans_size_log) < n_bins {
            Err(
                PcoError::Corruption(
                    CorruptionKind::AnsSizeLogTooSmall {
                        ans_size_log: ans_size_log as Bitlen,
                        n_bins: n_bins as u64,
                    },
                ),
            )
        } else if n_bins == 1 && ans_size_log > 0 {
            Err(
                PcoError::Corruption(
                    CorruptionKind::SingleBinNonzeroAnsSizeLog {
                        ans_size_log: ans_size_log as Bitlen,
                    },
                ),
            )
        } else {
            sp_parse_bin_seq(s, p1, mode, ans_size_log, n_bins)
        },
    }
}

/// Parses one latent's chunk metadata.
pub open spec fn sp_parse_latent(s: Seq<bool>, pos: int, mode: Mode) -> Result<
    (ChunkLatentMetadataV, int),
    PcoError,
> {
    match sp_read(s, pos, BITS_TO_ENCODE_ANS_SIZE_LOG as nat) {
        Err(e) => Err(e),
        Ok((a, p1)) => match sp_parse_bins(s, p1, mode, a) {
            Err(e) => Err(e),
            Ok((bins, p2)) => Ok((ChunkLatentMetadataV { ans_size_log: a as Bitlen, bins }, p2)),
        },
    }
}

/// Parses `count` latents one after the other.
pub open spec fn sp_parse_latent_seq(s: Seq<bool>, pos: int, mode: Mode, count: nat) -> Result<
    (Seq<ChunkLatentMetadataV>, int),
    PcoError,
>
    decreases count,
{
    if count == 0 {
        Ok((Seq::empty(), pos))
    } else {
        match sp_parse_latent(s, pos, mode) {
            Err(e) => Err(e),
            Ok((l, p1)) => match sp_parse_latent_seq(s, p1, mode, (count - 1) as nat) {
                Err(e) => Err(e),
                Ok((rest, p2)) => Ok((seq![l] + rest, p2)),
            },
        }
    }
}

/// Parses the mode tag, and for `FloatMult` the base right after it.
/// An unknown tag is a compatibility error: a newer revision wrote it.
pub open spec fn sp_parse_mode(s: Seq<bool>, pos: int) -> Result<(Mode, int), PcoError> {
    match sp_read(s, pos, BITS_TO_ENCODE_MODE as nat) {
        Err(e) => Err(e),
        Ok((tag, p1)) => if tag == 0 {
            Ok((Mode::Classic, p1))
        } else if tag == 1 {
            Ok((Mode::Gcd, p1))
        } else if tag == 2 {
            match sp_read(s, p1, U_BITS as nat) {
                Err(e) => Err(e),
                Ok((base, p2)) => Ok((Mode::FloatMult(base as u64), p2)),
            }
        } else {
            Err(PcoError::Compatibility { mode_tag: tag as u64 })
        },
    }
}

/// Parses a chunk's fields after the two size fields.
pub open spec fn sp_parse_chunk_after_sizes(s: Seq<bool>, pos: int, n: nat, cbs: nat) -> Result<
    (ChunkMetadataV, int),
    PcoError,
> {
    match sp_parse_mode(s, pos) {
        Err(e) => Err(e),
        Ok((mode, p1)) => match sp_read(s, p1, BITS_TO_ENCODE_DELTA_ENCODING_ORDER as nat) {
            Err(e) => Err(e),
            Ok((order, p2)) => match sp_parse_latent_seq(s, p2, mode, spec_n_latents(mode)) {
                Err(e) => Err(e),
                Ok((ls, p3)) => Ok(
                    (
                        ChunkMetadataV {
                            n: n as usize,
                            compressed_body_size: cbs as usize,
                            mode,
                            delta_encoding_order: order as usize,
                            latents: ls,
                        },
                        p3,
                    ),
                ),
            },
        },
    }
}

/// Parses a whole chunk metadata record before its padding. In wrapped mode
/// the sizes are owned by the outer format and read as zero.
pub open spec fn sp_parse_chunk_body(s: Seq<bool>, pos: int, wrapped: bool) -> Result<
    (ChunkMetadataV, int),
    PcoError,
> {
    if wrapped {
        sp_parse_chunk_after_sizes(s, pos, 0, 0)
    } else {
        match sp_read(s, pos, BITS_TO_ENCODE_N_ENTRIES as nat) {
            Err(e) => Err(e),
            Ok((n, p1)) => match sp_read(s, p1, BITS_TO_ENCODE_COMPRESSED_BODY_SIZE as nat) {
                Err(e) => Err(e),
                Ok((cbs, p2)) => sp_parse_chunk_after_sizes(s, p2, n, cbs),
            },
        }
    }
}

/// Parses a whole chunk metadata record, padding included.
pub open spec fn sp_parse_chunk(s: Seq<bool>, pos: int, wrapped: bool) -> Result<
    (ChunkMetadataV, int),
    PcoError,
> {
    match sp_parse_chunk_body(s, pos, wrapped) {
        Err(e) => Err(e),
        Ok((c, p1)) => match sp_drain_byte(s, p1, CorruptionKind::NonzeroPaddingChunk) {
            Err(e) => Err(e),
            Ok(p2) => Ok((c, p2)),
        },
    }
}

/// Parses `order` delta moments.
pub open spec fn sp_parse_delta_moments(s: Seq<bool>, pos: int, order: nat) -> Result<
    (Seq<u64>, int),
    PcoError,
>
    decreases order,
{
    if order == 0 {
        Ok((Seq::empty(), pos))
    } else {
        match sp_read(s, pos, U_BITS as nat) {
            Err(e) => Err(e),
            Ok((m, p1)) => match sp_parse_delta_moments(s, p1, (order - 1) as nat) {
                Err(e) => Err(e),
                Ok((rest, p2)) => Ok((seq![m as u64] + rest, p2)),
            },
        }
    }
}

/// Parses `count` final ANS states at the table width.
pub open spec fn sp_parse_states(s: Seq<bool>, pos: int, ans_size_log: nat, count: nat) -> Result<
    (Seq<AnsState>, int),
    PcoError,
>
    decreases count,
{
    if count == 0 {
        Ok((Seq::empty(), pos))
    } else {
        match sp_read(s, pos, ans_size_log) {
            Err(e) => Err(e),
            Ok((st, p1)) => match sp_parse_states(s, p1, ans_size_log, (count - 1) as nat) {
                Err(e) => Err(e),
                Ok((rest, p2)) => Ok((seq![st as AnsState] + rest, p2)),
            },
        }
    }
}

/// Parses one latent's page metadata.
pub open spec fn sp_parse_page_latent(
    s: Seq<bool>,
    pos: int,
    delta_order: nat,
    ans_size_log: nat,
) -> Result<(PageLatentMetadataV, int), PcoError> {
    match sp_parse_delta_moments(s, pos, delta_order) {
        Err(e) => Err(e),
        Ok((ms, p1)) => match sp_parse_states(s, p1, ans_size_log, ANS_INTERLEAVING as nat) {
            Err(e) => Err(e),
            Ok((sts, p2)) => Ok(
                (PageLatentMetadataV { delta_moments: ms, ans_final_state_idxs: sts }, p2),
            ),
        },
    }
}

/// Parses the page latents from index `i` on, each against its chunk
/// latent's delta order and table width.
pub open spec fn sp_parse_page_latent_seq(s: Seq<bool>, pos: int, c: ChunkMetadataV, i: nat) -> Result<
    (Seq<PageLatentMetadataV>, int),
    PcoError,
>
    decreases c.latents.len() - i,
{
    if i >= c.latents.len() {
        Ok((Seq::empty(), pos))
    } else {
        match sp_parse_page_latent(
            s,
            pos,
            spec_latent_delta_order(c.mode, i, c.delta_encoding_order as nat),
            c.latents[i as int].ans_size_log as nat,
        ) {
            Err(e) => Err(e),
            Ok((pl, p1)) => match sp_parse_page_latent_seq(s, p1, c, i + 1) {
                Err(e) => Err(e),
                Ok((rest, p2)) => Ok((seq![pl] + rest, p2)),
            },
        }
    }
}

/// Parses a whole page metadata record, padding included, against its
/// owning chunk.
pub open spec fn sp_parse_page(s: Seq<bool>, pos: int, c: ChunkMetadataV) -> Result<
    (PageMetadataV, int),
    PcoError,
> {
    match sp_parse_page_latent_seq(s, pos, c, 0) {
        Err(e) => Err(e),
        Ok((ls, p1)) => match sp_drain_byte(s, p1, CorruptionKind::NonzeroPaddingPage) {
            Err(e) => Err(e),
            Ok(p2) => Ok((PageMetadataV { latents: ls }, p2)),
        },
    }
}

} // verus!
