//! The laws that tie the writers and parsers together: every well-formed
//! record parses back from its own encoding, bit for bit, and the
//! specification parser rejects the corrupt and incompatible streams the
//! format promises to reject.

use vstd::prelude::*;

verus! {

use vstd::arithmetic::power2::pow2;
use vstd::arithmetic::power2::lemma_pow2_pos;
use vstd::arithmetic::power2::lemma2_to64;
use vstd::arithmetic::div_mod::lemma_fundamental_div_mod;
use vstd::arithmetic::div_mod::lemma_mod_multiples_vanish;
use crate::bin::Bin;
use crate::bit_reader::sp_read;
use crate::bit_reader::sp_drain_byte;
use crate::bits::u_bits;
use crate::bits::u_val;
use crate::bits::lemma_u_val_u_bits;
use crate::chunk_metadata::ChunkLatentMetadataV;
use crate::chunk_metadata::ChunkMetadataV;
use crate::chunk_metadata::PageLatentMetadataV;
use crate::chunk_metadata::PageMetadataV;
use crate::constants::AnsState;
use crate::constants::Bitlen;
use crate::constants::BITS_TO_ENCODE_ANS_SIZE_LOG;
use crate::constants::BITS_TO_ENCODE_COMPRESSED_BODY_SIZE;
use crate::constants::BITS_TO_ENCODE_MODE;
use crate::constants::BITS_TO_ENCODE_N_BINS;
use crate::constants::BITS_TO_ENCODE_N_ENTRIES;
use crate::constants::BITS_TO_ENCODE_OFFSET_BITS;
use crate::constants::U_BITS;
use crate::errors::CorruptionKind;
use crate::errors::PcoError;
use crate::format::chunk_ans_size_logs;
use crate::format::enc_bin;
use crate::format::enc_bin_seq;
use crate::format::enc_bins;
use crate::format::enc_chunk;
use crate::format::enc_chunk_body;
use crate::format::enc_delta_moments;
use crate::format::enc_latent;
use crate::format::enc_latent_seq;
use crate::format::enc_mode;
use crate::format::enc_page;
use crate::format::enc_page_latent;
use crate::format::enc_page_latent_seq;
use crate::format::enc_states;
use crate::format::pad_to_byte;
use crate::format::sp_parse_bin;
use crate::format::sp_parse_bin_seq;
use crate::format::sp_parse_bins;
use crate::format::sp_parse_chunk;
use crate::format::sp_parse_chunk_after_sizes;
use crate::format::sp_parse_chunk_body;
use crate::format::sp_parse_delta_moments;
use crate::format::sp_parse_latent;
use crate::format::sp_parse_latent_seq;
use crate::format::sp_parse_mode;
use crate::format::sp_parse_page;
use crate::format::sp_parse_page_latent;
use crate::format::sp_parse_page_latent_seq;
use crate::format::sp_parse_states;
use crate::format::wf_bin;
use crate::format::wf_chunk;
use crate::format::wf_latent;
use crate::format::wf_page;
use crate::format::wf_page_latent;
use crate::modes::Mode;
use crate::modes::spec_latent_delta_order;
use crate::modes::spec_mode_tag;
use crate::modes::spec_n_latents;

broadcast use crate::bits::lemma_u_bits_len;

/// The stream `s` carries exactly the bits `x` starting at `pos`.
pub open spec fn begins_with(s: Seq<bool>, pos: int, x: Seq<bool>) -> bool {
    &&& 0 <= pos
    &&& pos + x.len() <= s.len()
    &&& s.subrange(pos, pos + x.len()) == x
}

/// A stream that begins with `x + y` begins with `x`, and with `y` right
/// after it.
proof fn lemma_begins_with_split(s: Seq<bool>, pos: int, x: Seq<bool>, y: Seq<bool>)
    requires
        begins_with(s, pos, x + y),
    ensures
        begins_with(s, pos, x),
        begins_with(s, pos + x.len(), y),
{
    assert(s.subrange(pos, pos + x.len()) =~= x) by {
        assert forall|i: int| 0 <= i < x.len() implies s.subrange(pos, pos + x.len())[i] == x[i] by {
            assert(s.subrange(pos, pos + (x + y).len())[i] == (x + y)[i]);
        }
    }
    assert(s.subrange(pos + x.len(), pos + x.len() + y.len()) =~= y) by {
        assert forall|i: int|
            0 <= i < y.len() implies s.subrange(pos + x.len(), pos + x.len() + y.len())[i]
            == y[i] by {
            assert(s.subrange(pos, pos + (x + y).len())[x.len() + i] == (x + y)[x.len() + i]);
        }
    }
}

/// Reading a field off its own encoding gives the value back.
proof fn lemma_sp_read_exact(s: Seq<bool>, pos: int, x: nat, w: nat)
    requires
        begins_with(s, pos, u_bits(x, w)),
        x < pow2(w),
    ensures
        sp_read(s, pos, w) == Ok::<(nat, int), PcoError>((x, pos + w)),
{
    lemma_u_val_u_bits(x, w);
}

/// One bin parses back from its encoding.
proof fn lemma_rt_bin(s: Seq<bool>, pos: int, b: Bin, mode: Mode, ans_size_log: nat)
    requires
        wf_bin(b, mode, ans_size_log),
        begins_with(s, pos, enc_bin(b, mode, ans_size_log)),
    ensures
        sp_parse_bin(s, pos, mode, ans_size_log) == Ok::<(Bin, int), PcoError>(
            (b, pos + enc_bin(b, mode, ans_size_log).len()),
        ),
{
    let a = ans_size_log;
    let f0 = u_bits((b.weight - 1) as nat, a);
    let f1 = u_bits(b.lower as nat, U_BITS as nat);
    let f2 = u_bits(b.offset_bits as nat, BITS_TO_ENCODE_OFFSET_BITS as nat);
    let f3 = if mode is Gcd && b.offset_bits > 0 {
        u_bits(b.gcd as nat, U_BITS as nat)
    } else {
        Seq::<bool>::empty()
    };
    lemma2_to64();
    assert(enc_bin(b, mode, a) =~= f0 + (f1 + (f2 + f3)));
    lemma_begins_with_split(s, pos, f0, f1 + (f2 + f3));
    lemma_sp_read_exact(s, pos, (b.weight - 1) as nat, a);
    let p1 = pos + f0.len();
    lemma_begins_with_split(s, p1, f1, f2 + f3);
    lemma_sp_read_exact(s, p1, b.lower as nat, U_BITS as nat);
    let p2 = p1 + f1.len();
    lemma_begins_with_split(s, p2, f2, f3);
    lemma_sp_read_exact(s, p2, b.offset_bits as nat, BITS_TO_ENCODE_OFFSET_BITS as nat);
    let p3 = p2 + f2.len();
    if mode is Gcd && b.offset_bits > 0 {
        lemma_sp_read_exact(s, p3, b.gcd as nat, U_BITS as nat);
    }
    assert(sp_parse_bin(s, pos, mode, a)->Ok_0.0 == b);
}

/// A bin list parses back from its encoding, bin by bin.
proof fn lemma_rt_bin_seq(s: Seq<bool>, pos: int, bins: Seq<Bin>, mode: Mode, ans_size_log: nat)
    requires
        forall|i: int| 0 <= i < bins.len() ==> wf_bin(#[trigger] bins[i], mode, ans_size_log),
        begins_with(s, pos, enc_bin_seq(bins, mode, ans_size_log)),
    ensures
        sp_parse_bin_seq(s, pos, mode, ans_size_log, bins.len()) == Ok::<(Seq<Bin>, int), PcoError>(
            (bins, pos + enc_bin_seq(bins, mode, ans_size_log).len()),
        ),
    decreases bins.len(),
{
    if bins.len() == 0 {
        assert(bins =~= Seq::<Bin>::empty());
    } else {
        let head = enc_bin(bins[0], mode, ans_size_log);
        let tail = enc_bin_seq(bins.drop_first(), mode, ans_size_log);
        assert(enc_bin_seq(bins, mode, ans_size_log) == head + tail);
        lemma_begins_with_split(s, pos, head, tail);
        lemma_rt_bin(s, pos, bins[0], mode, ans_size_log);
        lemma_rt_bin_seq(s, pos + head.len(), bins.drop_first(), mode, ans_size_log);
        assert(seq![bins[0]] + bins.drop_first() =~= bins);
    }
}

/// A whole bin table parses back from its encoding; its count passes both
/// validations because well-formedness is exactly what they check.
proof fn lemma_rt_bins(s: Seq<bool>, pos: int, bins: Seq<Bin>, mode: Mode, ans_size_log: nat)
    requires
        bins.len() < pow2(BITS_TO_ENCODE_N_BINS as nat),
        bins.len() <= pow2(ans_size_log),
        bins.len() == 1 ==> ans_size_log == 0,
        forall|i: int| 0 <= i < bins.len() ==> wf_bin(#[trigger] bins[i], mode, ans_size_log),
        begins_with(s, pos, enc_bins(bins, mode, ans_size_log)),
    ensures
        sp_parse_bins(s, pos, mode, ans_size_log) == Ok::<(Seq<Bin>, int), PcoError>(
            (bins, pos + enc_bins(bins, mode, ans_size_log).len()),
        ),
{
    let header = u_bits(bins.len() as nat, BITS_TO_ENCODE_N_BINS as nat);
    let tail = enc_bin_seq(bins, mode, ans_size_log);
    assert(enc_bins(bins, mode, ans_size_log) == header + tail);
    lemma_begins_with_split(s, pos, header, tail);
    lemma_sp_read_exact(s, pos, bins.len() as nat, BITS_TO_ENCODE_N_BINS as nat);
    lemma_rt_bin_seq(s, pos + header.len(), bins, mode, ans_size_log);
}

/// One latent's chunk metadata parses back from its encoding.
proof fn lemma_rt_latent(s: Seq<bool>, pos: int, l: ChunkLatentMetadataV, mode: Mode)
    requires
        wf_latent(l, mode),
        begins_with(s, pos, enc_latent(l, mode)),
    ensures
        sp_parse_latent(s, pos, mode) == Ok::<(ChunkLatentMetadataV, int), PcoError>(
            (l, pos + enc_latent(l, mode).len()),
        ),
{
    let header = u_bits(l.ans_size_log as nat, BITS_TO_ENCODE_ANS_SIZE_LOG as nat);
    let tail = enc_bins(l.bins, mode, l.ans_size_log as nat);
    assert(enc_latent(l, mode) == header + tail);
    lemma_begins_with_split(s, pos, header, tail);
    lemma_sp_read_exact(s, pos, l.ans_size_log as nat, BITS_TO_ENCODE_ANS_SIZE_LOG as nat);
    lemma_rt_bins(s, pos + header.len(), l.bins, mode, l.ans_size_log as nat);
    assert(sp_parse_latent(s, pos, mode)->Ok_0.0 =~= l);
}

/// The latents parse back from their encodings, one after the other.
proof fn lemma_rt_latent_seq(s: Seq<bool>, pos: int, ls: Seq<ChunkLatentMetadataV>, mode: Mode)
    requires
        forall|i: int| 0 <= i < ls.len() ==> wf_latent(#[trigger] ls[i], mode),
        begins_with(s, pos, enc_latent_seq(ls, mode)),
    ensures
        sp_parse_latent_seq(s, pos, mode, ls.len()) == Ok::<
            (Seq<ChunkLatentMetadataV>, int),
            PcoError,
        >((ls, pos + enc_latent_seq(ls, mode).len())),
    decreases ls.len(),
{
    if ls.len() == 0 {
        assert(ls =~= Seq::<ChunkLatentMetadataV>::empty());
    } else {
        let head = enc_latent(ls[0], mode);
        let tail = enc_latent_seq(ls.drop_first(), mode);
        assert(enc_latent_seq(ls, mode) == head + tail);
        lemma_begins_with_split(s, pos, head, tail);
        lemma_rt_latent(s, pos, ls[0], mode);
        lemma_rt_latent_seq(s, pos + head.len(), ls.drop_first(), mode);
        assert(seq![ls[0]] + ls.drop_first() =~= ls);
    }
}

/// The mode parses back from its tag (and base, for `FloatMult`).
proof fn lemma_rt_mode(s: Seq<bool>, pos: int, m: Mode)
    requires
        begins_with(s, pos, enc_mode(m)),
    ensures
        sp_parse_mode(s, pos) == Ok::<(Mode, int), PcoError>((m, pos + enc_mode(m).len())),
{
    lemma2_to64();
    let header = u_bits(spec_mode_tag(m), BITS_TO_ENCODE_MODE as nat);
    match m {
        Mode::FloatMult(base) => {
            let tail = u_bits(base as nat, U_BITS as nat);
            assert(enc_mode(m) == header + tail);
            lemma_begins_with_split(s, pos, header, tail);
            lemma_sp_read_exact(s, pos, spec_mode_tag(m), BITS_TO_ENCODE_MODE as nat);
            lemma_sp_read_exact(s, pos + header.len(), base as nat, U_BITS as nat);
        },
        _ => {
            assert(enc_mode(m) =~= header + Seq::<bool>::empty());
            lemma_begins_with_split(s, pos, header, Seq::<bool>::empty());
            lemma_sp_read_exact(s, pos, spec_mode_tag(m), BITS_TO_ENCODE_MODE as nat);
        },
    }
}

/// What a parser hands back for the two size fields: the stored values in
/// standalone framing, zeroes under wrapped framing where the outer format
/// owns them.
pub open spec fn with_stored_sizes(c: ChunkMetadataV, wrapped: bool) -> ChunkMetadataV {
    if wrapped {
        ChunkMetadataV { n: 0usize, compressed_body_size: 0usize, ..c }
    } else {
        c
    }
}

/// A chunk's pre-padding fields parse back from their encoding.
proof fn lemma_rt_chunk_body(s: Seq<bool>, pos: int, c: ChunkMetadataV, wrapped: bool)
    requires
        wf_chunk(c),
        begins_with(s, pos, enc_chunk_body(c, wrapped)),
    ensures
        sp_parse_chunk_body(s, pos, wrapped) == Ok::<(ChunkMetadataV, int), PcoError>(
            (with_stored_sizes(c, wrapped), pos + enc_chunk_body(c, wrapped).len()),
        ),
{
    lemma2_to64();
    let sizes = if wrapped {
        Seq::<bool>::empty()
    } else {
        u_bits(c.n as nat, BITS_TO_ENCODE_N_ENTRIES as nat) + u_bits(
            c.compressed_body_size as nat,
            BITS_TO_ENCODE_COMPRESSED_BODY_SIZE as nat,
        )
    };
    let modes = enc_mode(c.mode);
    let order = u_bits(
        c.delta_encoding_order as nat,
        crate::constants::BITS_TO_ENCODE_DELTA_ENCODING_ORDER as nat,
    );
    let lats = enc_latent_seq(c.latents, c.mode);
    assert(enc_chunk_body(c, wrapped) =~= sizes + (modes + (order + lats)));
    lemma_begins_with_split(s, pos, sizes, modes + (order + lats));
    let p0 = pos + sizes.len();
    if !wrapped {
        let nf = u_bits(c.n as nat, BITS_TO_ENCODE_N_ENTRIES as nat);
        let cf = u_bits(c.compressed_body_size as nat, BITS_TO_ENCODE_COMPRESSED_BODY_SIZE as nat);
        assert(sizes == nf + cf);
        lemma_begins_with_split(s, pos, nf, cf);
        lemma_sp_read_exact(s, pos, c.n as nat, BITS_TO_ENCODE_N_ENTRIES as nat);
        lemma_sp_read_exact(s, pos + nf.len(), c.compressed_body_size as nat,
            BITS_TO_ENCODE_COMPRESSED_BODY_SIZE as nat);
    }
    lemma_begins_with_split(s, p0, modes, order + lats);
    lemma_rt_mode(s, p0, c.mode);
    let p1 = p0 + modes.len();
    lemma_begins_with_split(s, p1, order, lats);
    lemma_sp_read_exact(s, p1, c.delta_encoding_order as nat,
        crate::constants::BITS_TO_ENCODE_DELTA_ENCODING_ORDER as nat);
    let p2 = p1 + order.len();
    lemma_rt_latent_seq(s, p2, c.latents, c.mode);
    assert(sp_parse_chunk_body(s, pos, wrapped)->Ok_0.0 =~= with_stored_sizes(c, wrapped));
}

/// Zero padding drains cleanly.
proof fn lemma_drain_zero_padding(s: Seq<bool>, pos: int, pad: nat, kind: CorruptionKind)
    requires
        0 <= pos,
        pad == ((8 - pos % 8) % 8) as nat,
        begins_with(s, pos, u_bits(0, pad)),
    ensures
        sp_drain_byte(s, pos, kind) == Ok::<int, PcoError>(pos + pad),
{
    lemma_pow2_pos(pad);
    lemma_u_val_u_bits(0, pad);
}

/// Round trip for chunk metadata: for any well-formed record and either
/// framing, parsing a stream that carries its encoding at a byte-aligned
/// position gives the record back — with the sizes zeroed under wrapped
/// framing, where the outer format owns them — and consumes exactly the
/// encoding.
pub proof fn lemma_chunk_metadata_round_trip(s: Seq<bool>, pos: int, c: ChunkMetadataV, wrapped: bool)
    requires
        wf_chunk(c),
        pos % 8 == 0,
        begins_with(s, pos, enc_chunk(c, wrapped)),
    ensures
        sp_parse_chunk(s, pos, wrapped) == Ok::<(ChunkMetadataV, int), PcoError>(
            (with_stored_sizes(c, wrapped), pos + enc_chunk(c, wrapped).len()),
        ),
{
    let body = enc_chunk_body(c, wrapped);
    let pad = pad_to_byte(body.len());
    assert(enc_chunk(c, wrapped) == body + u_bits(0, pad));
    lemma_begins_with_split(s, pos, body, u_bits(0, pad));
    lemma_rt_chunk_body(s, pos, c, wrapped);
    let p1 = pos + body.len();
    lemma_fundamental_div_mod(pos, 8);
    lemma_mod_multiples_vanish(pos / 8, body.len() as int, 8);
    assert(p1 % 8 == body.len() % 8);
    lemma_drain_zero_padding(s, p1, pad, CorruptionKind::NonzeroPaddingChunk);
}

/// Delta moments parse back from their encoding.
proof fn lemma_rt_delta_moments(s: Seq<bool>, pos: int, ms: Seq<u64>)
    requires
        begins_with(s, pos, enc_delta_moments(ms)),
    ensures
        sp_parse_delta_moments(s, pos, ms.len()) == Ok::<(Seq<u64>, int), PcoError>(
            (ms, pos + enc_delta_moments(ms).len()),
        ),
    decreases ms.len(),
{
    lemma2_to64();
    if ms.len() == 0 {
        assert(ms =~= Seq::<u64>::empty());
    } else {
        let head = u_bits(ms[0] as nat, U_BITS as nat);
        let tail = enc_delta_moments(ms.drop_first());
        assert(enc_delta_moments(ms) == head + tail);
        lemma_begins_with_split(s, pos, head, tail);
        lemma_sp_read_exact(s, pos, ms[0] as nat, U_BITS as nat);
        lemma_rt_delta_moments(s, pos + head.len(), ms.drop_first());
        assert(seq![ms[0]] + ms.drop_first() =~= ms);
    }
}

/// Final ANS states parse back from their encoding.
proof fn lemma_rt_states(s: Seq<bool>, pos: int, sts: Seq<AnsState>, ans_size_log: nat)
    requires
        forall|i: int| 0 <= i < sts.len() ==> (#[trigger] sts[i] as nat) < pow2(ans_size_log),
        begins_with(s, pos, enc_states(sts, ans_size_log)),
    ensures
        sp_parse_states(s, pos, ans_size_log, sts.len()) == Ok::<(Seq<AnsState>, int), PcoError>(
            (sts, pos + enc_states(sts, ans_size_log).len()),
        ),
    decreases sts.len(),
{
    if sts.len() == 0 {
        assert(sts =~= Seq::<AnsState>::empty());
    } else {
        let head = u_bits(sts[0] as nat, ans_size_log);
        let tail = enc_states(sts.drop_first(), ans_size_log);
        assert(enc_states(sts, ans_size_log) == head + tail);
        lemma_begins_with_split(s, pos, head, tail);
        lemma_sp_read_exact(s, pos, sts[0] as nat, ans_size_log);
        lemma_rt_states(s, pos + head.len(), sts.drop_first(), ans_size_log);
        assert(seq![sts[0]] + sts.drop_first() =~= sts);
    }
}

/// One latent's page metadata parses back from its encoding.
proof fn lemma_rt_page_latent(s: Seq<bool>, pos: int, pl: PageLatentMetadataV, ans_size_log: nat)
    requires
        wf_page_latent(pl, ans_size_log),
        begins_with(s, pos, enc_page_latent(pl, ans_size_log)),
    ensures
        sp_parse_page_latent(s, pos, pl.delta_moments.len(), ans_size_log) == Ok::<
            (PageLatentMetadataV, int),
            PcoError,
        >((pl, pos + enc_page_latent(pl, ans_size_log).len())),
{
    let head = enc_delta_moments(pl.delta_moments);
    let tail = enc_states(pl.ans_final_state_idxs, ans_size_log);
    assert(enc_page_latent(pl, ans_size_log) == head + tail);
    lemma_begins_with_split(s, pos, head, tail);
    lemma_rt_delta_moments(s, pos, pl.delta_moments);
    lemma_rt_states(s, pos + head.len(), pl.ans_final_state_idxs, ans_size_log);
    assert(sp_parse_page_latent(s, pos, pl.delta_moments.len(), ans_size_log)->Ok_0.0 =~= pl);
}

/// The page latents from index `i` on parse back from their encodings.
proof fn lemma_rt_page_latent_seq(
    s: Seq<bool>,
    pos: int,
    p: PageMetadataV,
    c: ChunkMetadataV,
    i: nat,
)
    requires
        wf_page(p, c),
        i <= p.latents.len(),
        begins_with(s, pos, enc_page_latent_seq(p.latents, chunk_ans_size_logs(c), i)),
    ensures
        sp_parse_page_latent_seq(s, pos, c, i) == Ok::<(Seq<PageLatentMetadataV>, int), PcoError>(
            (
                p.latents.skip(i as int),
                pos + enc_page_latent_seq(p.latents, chunk_ans_size_logs(c), i).len(),
            ),
        ),
    decreases p.latents.len() - i,
{
    let logs = chunk_ans_size_logs(c);
    assert(logs.len() == c.latents.len());
    if i == p.latents.len() {
        assert(p.latents.skip(i as int) =~= Seq::<PageLatentMetadataV>::empty());
    } else {
        assert(logs[i as int] == c.latents[i as int].ans_size_log);
        let a = c.latents[i as int].ans_size_log as nat;
        let head = enc_page_latent(p.latents[i as int], a);
        let tail = enc_page_latent_seq(p.latents, logs, i + 1);
        assert(enc_page_latent_seq(p.latents, logs, i) == head + tail);
        lemma_begins_with_split(s, pos, head, tail);
        assert(p.latents[i as int].delta_moments.len() == spec_latent_delta_order(
            c.mode,
            i,
            c.delta_encoding_order as nat,
        ));
        lemma_rt_page_latent(s, pos, p.latents[i as int], a);
        lemma_rt_page_latent_seq(s, pos + head.len(), p, c, i + 1);
        assert(seq![p.latents[i as int]] + p.latents.skip(i as int + 1) =~= p.latents.skip(
            i as int,
        ));
    }
}

/// Round trip for page metadata: for any page record consistent with its
/// owning chunk, parsing a stream that carries its encoding at a
/// byte-aligned position gives the record back and consumes exactly the
/// encoding. Paging strategy plays no part: pages encode identically
/// whether the chunk was split as one page or by explicit sizes.
pub proof fn lemma_page_metadata_round_trip(s: Seq<bool>, pos: int, p: PageMetadataV, c: ChunkMetadataV)
    requires
        wf_page(p, c),
        pos % 8 == 0,
        begins_with(s, pos, enc_page(p, chunk_ans_size_logs(c))),
    ensures
        sp_parse_page(s, pos, c) == Ok::<(PageMetadataV, int), PcoError>(
            (p, pos + enc_page(p, chunk_ans_size_logs(c)).len()),
        ),
{
    let logs = chunk_ans_size_logs(c);
    let body = enc_page_latent_seq(p.latents, logs, 0);
    let pad = pad_to_byte(body.len());
    assert(enc_page(p, logs) == body + u_bits(0, pad));
    lemma_begins_with_split(s, pos, body, u_bits(0, pad));
    lemma_rt_page_latent_seq(s, pos, p, c, 0);
    assert(p.latents.skip(0) =~= p.latents);
    let p1 = pos + body.len();
    lemma_fundamental_div_mod(pos, 8);
    lemma_mod_multiples_vanish(pos / 8, body.len() as int, 8);
    assert(p1 % 8 == body.len() % 8);
    lemma_drain_zero_padding(s, p1, pad, CorruptionKind::NonzeroPaddingPage);
    assert(sp_parse_page(s, pos, c)->Ok_0.0 =~= p);
}

/// Backpatch correctness: overwriting the 32 size bits inside a standalone
/// chunk encoding with a new size yields exactly the encoding of the same
/// chunk with that size — so a later parse reads the patched size back,
/// whatever was stored first.
pub proof fn lemma_backpatch_encoding(c: ChunkMetadataV, size: usize)
    requires
        wf_chunk(c),
        (size as nat) < pow2(BITS_TO_ENCODE_COMPRESSED_BODY_SIZE as nat),
    ensures
        wf_chunk(ChunkMetadataV { compressed_body_size: size, ..c }),
        enc_chunk(ChunkMetadataV { compressed_body_size: size, ..c }, false) == enc_chunk(
            c,
            false,
        ).subrange(0, BITS_TO_ENCODE_N_ENTRIES as int) + u_bits(
            size as nat,
            BITS_TO_ENCODE_COMPRESSED_BODY_SIZE as nat,
        ) + enc_chunk(c, false).subrange(
            BITS_TO_ENCODE_N_ENTRIES + BITS_TO_ENCODE_COMPRESSED_BODY_SIZE,
            enc_chunk(c, false).len() as int,
        ),
        enc_chunk(ChunkMetadataV { compressed_body_size: size, ..c }, false).len() == enc_chunk(
            c,
            false,
        ).len(),
{
    let c2 = ChunkMetadataV { compressed_body_size: size, ..c };
    let nf = u_bits(c.n as nat, BITS_TO_ENCODE_N_ENTRIES as nat);
    let cf1 = u_bits(c.compressed_body_size as nat, BITS_TO_ENCODE_COMPRESSED_BODY_SIZE as nat);
    let cf2 = u_bits(size as nat, BITS_TO_ENCODE_COMPRESSED_BODY_SIZE as nat);
    let rest = enc_mode(c.mode) + u_bits(
        c.delta_encoding_order as nat,
        crate::constants::BITS_TO_ENCODE_DELTA_ENCODING_ORDER as nat,
    ) + enc_latent_seq(c.latents, c.mode);
    assert(enc_chunk_body(c, false) =~= nf + cf1 + rest);
    assert(enc_chunk_body(c2, false) =~= nf + cf2 + rest);
    assert(enc_chunk_body(c2, false).len() == enc_chunk_body(c, false).len());
    let pad = pad_to_byte(enc_chunk_body(c, false).len());
    let e1 = enc_chunk(c, false);
    let e2 = enc_chunk(c2, false);
    assert(e1 =~= nf + (cf1 + (rest + u_bits(0, pad))));
    assert(e2 =~= nf + (cf2 + (rest + u_bits(0, pad))));
    assert(begins_with(e1, 0, nf + (cf1 + (rest + u_bits(0, pad))))) by {
        assert(e1.subrange(0, e1.len() as int) =~= e1);
    }
    lemma_begins_with_split(e1, 0, nf, cf1 + (rest + u_bits(0, pad)));
    lemma_begins_with_split(e1, nf.len() as int, cf1, rest + u_bits(0, pad));
    assert(e1.subrange(0, BITS_TO_ENCODE_N_ENTRIES as int) == nf);
    assert(e1.subrange(
        BITS_TO_ENCODE_N_ENTRIES + BITS_TO_ENCODE_COMPRESSED_BODY_SIZE,
        e1.len() as int,
    ) == rest + u_bits(0, pad));
    assert(e2 =~= nf + cf2 + (rest + u_bits(0, pad)));
}

/// Backpatch correctness, end to end: take any stream that carries a
/// standalone chunk encoding one byte after a remembered byte-aligned
/// offset — whatever placeholder size it stored and whatever body follows.
/// Overwriting the 32 size bits in place, one byte plus an entry-count
/// field past the offset, yields a stream that parses to the same chunk
/// with the new size, for any size up to the field's maximum.
pub proof fn lemma_backpatch_round_trip(s0: Seq<bool>, bit_idx: int, c: ChunkMetadataV, size: usize)
    requires
        wf_chunk(c),
        (size as nat) < pow2(BITS_TO_ENCODE_COMPRESSED_BODY_SIZE as nat),
        bit_idx % 8 == 0,
        0 <= bit_idx,
        begins_with(s0, bit_idx + 8, enc_chunk(c, false)),
    ensures
        ({
            let field = bit_idx + 8 + BITS_TO_ENCODE_N_ENTRIES;
            let s1 = s0.subrange(0, field) + u_bits(
                size as nat,
                BITS_TO_ENCODE_COMPRESSED_BODY_SIZE as nat,
            ) + s0.subrange(field + BITS_TO_ENCODE_COMPRESSED_BODY_SIZE, s0.len() as int);
            let c2 = ChunkMetadataV { compressed_body_size: size, ..c };
            sp_parse_chunk(s1, bit_idx + 8, false) == Ok::<(ChunkMetadataV, int), PcoError>(
                (c2, bit_idx + 8 + enc_chunk(c2, false).len()),
            )
        }),
{
    lemma_backpatch_encoding(c, size);
    let c2 = ChunkMetadataV { compressed_body_size: size, ..c };
    let e1 = enc_chunk(c, false);
    let e2 = enc_chunk(c2, false);
    let cf2 = u_bits(size as nat, BITS_TO_ENCODE_COMPRESSED_BODY_SIZE as nat);
    let field = bit_idx + 8 + BITS_TO_ENCODE_N_ENTRIES;
    let s1 = s0.subrange(0, field) + cf2 + s0.subrange(
        field + BITS_TO_ENCODE_COMPRESSED_BODY_SIZE,
        s0.len() as int,
    );
    assert(e1.len() >= BITS_TO_ENCODE_N_ENTRIES + BITS_TO_ENCODE_COMPRESSED_BODY_SIZE) by {
        assert(e1.len() >= enc_chunk_body(c, false).len());
        assert(enc_chunk_body(c, false).len() >= (u_bits(c.n as nat,
            BITS_TO_ENCODE_N_ENTRIES as nat) + u_bits(c.compressed_body_size as nat,
            BITS_TO_ENCODE_COMPRESSED_BODY_SIZE as nat)).len());
    }
    assert(s1.len() == s0.len());
    assert(begins_with(s1, bit_idx + 8, e2)) by {
        assert(s1.subrange(bit_idx + 8, bit_idx + 8 + e2.len()) =~= e2) by {
            assert forall|i: int| 0 <= i < e2.len() implies s1.subrange(
                bit_idx + 8,
                bit_idx + 8 + e2.len(),
            )[i] == e2[i] by {
                assert(s0.subrange(bit_idx + 8, bit_idx + 8 + e1.len())[i] == e1[i]);
                let n_w = BITS_TO_ENCODE_N_ENTRIES as int;
                let c_w = BITS_TO_ENCODE_COMPRESSED_BODY_SIZE as int;
                if i < n_w {
                    assert(e2[i] == e1.subrange(0, n_w)[i]);
                } else if i < n_w + c_w {
                    assert(e2[i] == cf2[i - n_w]);
                } else {
                    assert(e2[i] == e1.subrange(n_w + c_w, e1.len() as int)[i - n_w - c_w]);
                }
            }
        }
    }
    lemma_chunk_metadata_round_trip(s1, bit_idx + 8, c2, false);
}

/// Corruption detection: a stored bin count larger than the ANS table is
/// rejected, whatever else the stream holds.
pub proof fn lemma_rejects_oversized_bin_count(
    s: Seq<bool>,
    pos: int,
    mode: Mode,
    ans_size_log: nat,
    n_bins: nat,
)
    requires
        n_bins < pow2(BITS_TO_ENCODE_N_BINS as nat),
        pow2(ans_size_log) < n_bins,
        begins_with(s, pos, u_bits(n_bins, BITS_TO_ENCODE_N_BINS as nat)),
    ensures
        sp_parse_bins(s, pos, mode, ans_size_log) == Err::<(Seq<Bin>, int), PcoError>(
            PcoError::Corruption(
                CorruptionKind::AnsSizeLogTooSmall {
                    ans_size_log: ans_size_log as Bitlen,
                    n_bins: n_bins as u64,
                },
            ),
        ),
{
    lemma_sp_read_exact(s, pos, n_bins, BITS_TO_ENCODE_N_BINS as nat);
}

/// Corruption detection: a single-bin table stored with a nonzero ANS size
/// log is rejected.
pub proof fn lemma_rejects_single_bin_nonzero_size_log(
    s: Seq<bool>,
    pos: int,
    mode: Mode,
    ans_size_log: nat,
)
    requires
        0 < ans_size_log,
        begins_with(s, pos, u_bits(1, BITS_TO_ENCODE_N_BINS as nat)),
    ensures
        sp_parse_bins(s, pos, mode, ans_size_log) == Err::<(Seq<Bin>, int), PcoError>(
            PcoError::Corruption(
                CorruptionKind::SingleBinNonzeroAnsSizeLog {
                    ans_size_log: ans_size_log as Bitlen,
                },
            ),
        ),
{
    lemma2_to64();
    lemma_sp_read_exact(s, pos, 1, BITS_TO_ENCODE_N_BINS as nat);
    lemma_pow2_pos(ans_size_log);
}

/// Corruption detection: a stored `offset_bits` beyond the representation
/// width is rejected.
pub proof fn lemma_rejects_oversized_offset_bits(
    s: Seq<bool>,
    pos: int,
    mode: Mode,
    ans_size_log: nat,
    weight_m1: nat,
    lower: nat,
    offset_bits: nat,
)
    requires
        weight_m1 < pow2(ans_size_log),
        lower < pow2(U_BITS as nat),
        offset_bits < pow2(BITS_TO_ENCODE_OFFSET_BITS as nat),
        offset_bits > U_BITS,
        begins_with(
            s,
            pos,
            u_bits(weight_m1, ans_size_log) + u_bits(lower, U_BITS as nat) + u_bits(
                offset_bits,
                BITS_TO_ENCODE_OFFSET_BITS as nat,
            ),
        ),
    ensures
        sp_parse_bin(s, pos, mode, ans_size_log) == Err::<(Bin, int), PcoError>(
            PcoError::Corruption(
                CorruptionKind::OffsetBitsTooLarge { offset_bits: offset_bits as Bitlen },
            ),
        ),
{
    let f0 = u_bits(weight_m1, ans_size_log);
    let f1 = u_bits(lower, U_BITS as nat);
    let f2 = u_bits(offset_bits, BITS_TO_ENCODE_OFFSET_BITS as nat);
    assert(f0 + f1 + f2 =~= f0 + (f1 + f2));
    lemma_begins_with_split(s, pos, f0, f1 + f2);
    lemma_sp_read_exact(s, pos, weight_m1, ans_size_log);
    lemma_begins_with_split(s, pos + f0.len(), f1, f2);
    lemma_sp_read_exact(s, pos + f0.len(), lower, U_BITS as nat);
    lemma_sp_read_exact(s, pos + f0.len() + f1.len(), offset_bits,
        BITS_TO_ENCODE_OFFSET_BITS as nat);
}

/// Corruption detection: a chunk whose padding bits are not all zero is
/// rejected, however well-formed everything before them was.
pub proof fn lemma_rejects_nonzero_chunk_padding(
    s: Seq<bool>,
    pos: int,
    c: ChunkMetadataV,
    wrapped: bool,
)
    requires
        wf_chunk(c),
        begins_with(s, pos, enc_chunk_body(c, wrapped)),
        ({
            let p1 = pos + enc_chunk_body(c, wrapped).len();
            let boundary = p1 + ((8 - p1 % 8) % 8);
            boundary <= s.len() && u_val(s.subrange(p1, boundary)) != 0
        }),
    ensures
        sp_parse_chunk(s, pos, wrapped) == Err::<(ChunkMetadataV, int), PcoError>(
            PcoError::Corruption(CorruptionKind::NonzeroPaddingChunk),
        ),
{
    lemma_rt_chunk_body(s, pos, c, wrapped);
}

/// Corruption detection: a page whose padding bits are not all zero is
/// rejected, however well-formed its latents were.
pub proof fn lemma_rejects_nonzero_page_padding(
    s: Seq<bool>,
    pos: int,
    p: PageMetadataV,
    c: ChunkMetadataV,
)
    requires
        wf_page(p, c),
        begins_with(s, pos, enc_page_latent_seq(p.latents, chunk_ans_size_logs(c), 0)),
        ({
            let p1 = pos + enc_page_latent_seq(p.latents, chunk_ans_size_logs(c), 0).len();
            let boundary = p1 + ((8 - p1 % 8) % 8);
            boundary <= s.len() && u_val(s.subrange(p1, boundary)) != 0
        }),
    ensures
        sp_parse_page(s, pos, c) == Err::<(PageMetadataV, int), PcoError>(
            PcoError::Corruption(CorruptionKind::NonzeroPaddingPage),
        ),
{
    lemma_rt_page_latent_seq(s, pos, p, c, 0);
}

/// Compatibility detection: a mode tag outside the known set is rejected
/// with a compatibility error — never silently mapped to `Classic` — and so
/// is any chunk that carries it, whatever size fields came before.
pub proof fn lemma_rejects_unknown_mode_tag(s: Seq<bool>, pos: int, tag: nat)
    requires
        2 < tag < pow2(BITS_TO_ENCODE_MODE as nat),
        begins_with(s, pos, u_bits(tag, BITS_TO_ENCODE_MODE as nat)),
    ensures
        sp_parse_mode(s, pos) == Err::<(Mode, int), PcoError>(
            PcoError::Compatibility { mode_tag: tag as u64 },
        ),
        forall|n: nat, cbs: nat|
            sp_parse_chunk_after_sizes(s, pos, n, cbs) == Err::<(ChunkMetadataV, int), PcoError>(
                PcoError::Compatibility { mode_tag: tag as u64 },
            ),
{
    lemma2_to64();
    lemma_sp_read_exact(s, pos, tag, BITS_TO_ENCODE_MODE as nat);
}

/// Every sequence of latents the parser accepts has exactly the requested
/// count.
proof fn lemma_latent_seq_len(s: Seq<bool>, pos: int, mode: Mode, count: nat)
    ensures
        sp_parse_latent_seq(s, pos, mode, count) matches Ok(v) ==> v.0.len() == count,
    decreases count,
{
    if count > 0 {
        match sp_parse_latent(s, pos, mode) {
            Ok(v) => {
                lemma_latent_seq_len(s, v.1, mode, (count - 1) as nat);
            },
            Err(_) => {},
        }
    }
}

/// Every bin the parser accepts is well-formed for its mode and table.
proof fn lemma_sound_bin(s: Seq<bool>, pos: int, mode: Mode, ans_size_log: nat)
    requires
        ans_size_log < pow2(BITS_TO_ENCODE_ANS_SIZE_LOG as nat),
    ensures
        sp_parse_bin(s, pos, mode, ans_size_log) matches Ok(v) ==> wf_bin(
            v.0,
            mode,
            ans_size_log,
        ) && pos < v.1,
{
    lemma2_to64();
    if sp_parse_bin(s, pos, mode, ans_size_log) matches Ok(v) {
        crate::bits::lemma_u_val_bound(s.subrange(pos, pos + ans_size_log));
        let p1 = pos + ans_size_log;
        crate::bits::lemma_u_val_bound(s.subrange(p1 + U_BITS, p1 + U_BITS
            + BITS_TO_ENCODE_OFFSET_BITS));
        if ans_size_log < 15 {
            vstd::arithmetic::power2::lemma_pow2_strictly_increases(ans_size_log, 15);
        }
    }
}

/// Every bin list the parser accepts has the requested length and only
/// well-formed bins, and the parse makes progress.
proof fn lemma_sound_bin_seq(s: Seq<bool>, pos: int, mode: Mode, ans_size_log: nat, count: nat)
    requires
        ans_size_log < pow2(BITS_TO_ENCODE_ANS_SIZE_LOG as nat),
    ensures
        sp_parse_bin_seq(s, pos, mode, ans_size_log, count) matches Ok(v) ==> v.0.len() == count
            && (forall|i: int| 0 <= i < v.0.len() ==> wf_bin(#[trigger] v.0[i], mode, ans_size_log))
            && pos <= v.1,
    decreases count,
{
    if count > 0 {
        lemma_sound_bin(s, pos, mode, ans_size_log);
        match sp_parse_bin(s, pos, mode, ans_size_log) {
            Ok(v) => {
                lemma_sound_bin_seq(s, v.1, mode, ans_size_log, (count - 1) as nat);
            },
            Err(_) => {},
        }
    }
}

/// Every bin table the parser accepts satisfies the table invariants.
proof fn lemma_sound_bins(s: Seq<bool>, pos: int, mode: Mode, ans_size_log: nat)
    requires
        ans_size_log < pow2(BITS_TO_ENCODE_ANS_SIZE_LOG as nat),
    ensures
        sp_parse_bins(s, pos, mode, ans_size_log) matches Ok(v) ==> ({
            &&& v.0.len() < pow2(BITS_TO_ENCODE_N_BINS as nat)
            &&& v.0.len() <= pow2(ans_size_log)
            &&& (v.0.len() == 1 ==> ans_size_log == 0)
            &&& forall|i: int| 0 <= i < v.0.len() ==> wf_bin(#[trigger] v.0[i], mode, ans_size_log)
        }),
{
    crate::bits::lemma_u_val_bound(s.subrange(pos, pos + BITS_TO_ENCODE_N_BINS));
    match sp_read(s, pos, BITS_TO_ENCODE_N_BINS as nat) {
        Ok(h) => {
            lemma_sound_bin_seq(s, h.1, mode, ans_size_log, h.0);
        },
        Err(_) => {},
    }
}

/// Every latent the parser accepts is well-formed.
proof fn lemma_sound_latent(s: Seq<bool>, pos: int, mode: Mode)
    ensures
        sp_parse_latent(s, pos, mode) matches Ok(v) ==> wf_latent(v.0, mode),
{
    lemma2_to64();
    crate::bits::lemma_u_val_bound(s.subrange(pos, pos + BITS_TO_ENCODE_ANS_SIZE_LOG));
    match sp_read(s, pos, BITS_TO_ENCODE_ANS_SIZE_LOG as nat) {
        Ok(h) => {
            lemma_sound_bins(s, h.1, mode, h.0);
        },
        Err(_) => {},
    }
}

/// Every latent list the parser accepts holds only well-formed latents.
proof fn lemma_sound_latent_seq(s: Seq<bool>, pos: int, mode: Mode, count: nat)
    ensures
        sp_parse_latent_seq(s, pos, mode, count) matches Ok(v) ==> v.0.len() == count && (forall|
            i: int,
        | 0 <= i < v.0.len() ==> wf_latent(#[trigger] v.0[i], mode)),
    decreases count,
{
    if count > 0 {
        lemma_sound_latent(s, pos, mode);
        match sp_parse_latent(s, pos, mode) {
            Ok(v) => {
                lemma_sound_latent_seq(s, v.1, mode, (count - 1) as nat);
            },
            Err(_) => {},
        }
    }
}

/// Parse soundness: every chunk the parser accepts is well-formed, so it
/// can be handed straight back to the writer.
pub proof fn lemma_parsed_chunk_well_formed(s: Seq<bool>, pos: int, wrapped: bool)
    ensures
        sp_parse_chunk(s, pos, wrapped) matches Ok(v) ==> wf_chunk(v.0),
{
    lemma2_to64();
    if sp_parse_chunk(s, pos, wrapped) matches Ok(_) {
        let p2 = if wrapped {
            pos
        } else {
            crate::bits::lemma_u_val_bound(s.subrange(pos, pos + BITS_TO_ENCODE_N_ENTRIES));
            let nv = sp_read(s, pos, BITS_TO_ENCODE_N_ENTRIES as nat)->Ok_0;
            crate::bits::lemma_u_val_bound(s.subrange(nv.1, nv.1
                + BITS_TO_ENCODE_COMPRESSED_BODY_SIZE));
            sp_read(s, nv.1, BITS_TO_ENCODE_COMPRESSED_BODY_SIZE as nat)->Ok_0.1
        };
        let mv = sp_parse_mode(s, p2)->Ok_0;
        let p3 = sp_read(s, mv.1, crate::constants::BITS_TO_ENCODE_DELTA_ENCODING_ORDER
            as nat)->Ok_0.1;
        crate::bits::lemma_u_val_bound(s.subrange(mv.1, mv.1
            + crate::constants::BITS_TO_ENCODE_DELTA_ENCODING_ORDER));
        lemma_sound_latent_seq(s, p3, mv.0, spec_n_latents(mv.0));
    }
}

/// Every moment list the parser accepts has exactly the requested order.
proof fn lemma_sound_delta_moments(s: Seq<bool>, pos: int, order: nat)
    ensures
        sp_parse_delta_moments(s, pos, order) matches Ok(v) ==> v.0.len() == order,
    decreases order,
{
    if order > 0 {
        match sp_read(s, pos, U_BITS as nat) {
            Ok(h) => {
                lemma_sound_delta_moments(s, h.1, (order - 1) as nat);
            },
            Err(_) => {},
        }
    }
}

/// Every state list the parser accepts has the requested length and only
/// indexes inside the table.
proof fn lemma_sound_states(s: Seq<bool>, pos: int, ans_size_log: nat, count: nat)
    requires
        ans_size_log <= 64,
    ensures
        sp_parse_states(s, pos, ans_size_log, count) matches Ok(v) ==> v.0.len() == count && (
        forall|i: int| 0 <= i < v.0.len() ==> (#[trigger] v.0[i] as nat) < pow2(ans_size_log)),
    decreases count,
{
    lemma2_to64();
    if count > 0 {
        crate::bits::lemma_u_val_bound(s.subrange(pos, pos + ans_size_log));
        if ans_size_log < 64 {
            vstd::arithmetic::power2::lemma_pow2_strictly_increases(ans_size_log, 64);
        }
        match sp_read(s, pos, ans_size_log) {
            Ok(h) => {
                lemma_sound_states(s, h.1, ans_size_log, (count - 1) as nat);
            },
            Err(_) => {},
        }
    }
}

/// Every page latent the parser accepts is well-formed for its table and
/// carries exactly the requested number of moments.
proof fn lemma_sound_page_latent(s: Seq<bool>, pos: int, order: nat, ans_size_log: nat)
    requires
        ans_size_log <= 64,
    ensures
        sp_parse_page_latent(s, pos, order, ans_size_log) matches Ok(v) ==> wf_page_latent(
            v.0,
            ans_size_log,
        ) && v.0.delta_moments.len() == order,
{
    lemma_sound_delta_moments(s, pos, order);
    match sp_parse_delta_moments(s, pos, order) {
        Ok(h) => {
            lemma_sound_states(s, h.1, ans_size_log, crate::constants::ANS_INTERLEAVING as nat);
        },
        Err(_) => {},
    }
}

/// Every page latent list the parser accepts, from index `i` on, is
/// well-formed against its chunk latents.
proof fn lemma_sound_page_latent_seq(s: Seq<bool>, pos: int, c: ChunkMetadataV, i: nat)
    requires
        wf_chunk(c),
        i <= c.latents.len(),
    ensures
        sp_parse_page_latent_seq(s, pos, c, i) matches Ok(v) ==> ({
            &&& v.0.len() == c.latents.len() - i
            &&& forall|j: int|
                0 <= j < v.0.len() ==> wf_page_latent(
                    #[trigger] v.0[j],
                    c.latents[i + j].ans_size_log as nat,
                )
            &&& forall|j: int|
                0 <= j < v.0.len() ==> (#[trigger] v.0[j].delta_moments).len()
                    == spec_latent_delta_order(c.mode, (i + j) as nat, c.delta_encoding_order as nat)
        }),
    decreases c.latents.len() - i,
{
    lemma2_to64();
    if i < c.latents.len() {
        assert(wf_latent(c.latents[i as int], c.mode));
        lemma_sound_page_latent(
            s,
            pos,
            spec_latent_delta_order(c.mode, i, c.delta_encoding_order as nat),
            c.latents[i as int].ans_size_log as nat,
        );
        match sp_parse_page_latent(
            s,
            pos,
            spec_latent_delta_order(c.mode, i, c.delta_encoding_order as nat),
            c.latents[i as int].ans_size_log as nat,
        ) {
            Ok(h) => {
                lemma_sound_page_latent_seq(s, h.1, c, i + 1);
            },
            Err(_) => {},
        }
    }
}

/// Parse soundness for pages: every page the parser accepts against a
/// well-formed chunk is consistent with that chunk, so it can be handed
/// straight back to the writer.
pub proof fn lemma_parsed_page_well_formed(s: Seq<bool>, pos: int, c: ChunkMetadataV)
    requires
        wf_chunk(c),
    ensures
        sp_parse_page(s, pos, c) matches Ok(v) ==> wf_page(v.0, c),
{
    lemma_sound_page_latent_seq(s, pos, c, 0);
}

/// Mode/latent-count consistency: every chunk the parser accepts carries
/// exactly the latent count its mode demands — one for `Classic` and `Gcd`,
/// two for `FloatMult` — regardless of bin contents. (The writer's side is
/// `wf_chunk`, which every write requires.)
pub proof fn lemma_parsed_latent_count(s: Seq<bool>, pos: int, wrapped: bool)
    ensures
        sp_parse_chunk(s, pos, wrapped) matches Ok(v) ==> v.0.latents.len() == spec_n_latents(
            v.0.mode,
        ),
        sp_parse_chunk(s, pos, wrapped) matches Ok(v) ==> ((v.0.mode is Classic || v.0.mode is Gcd)
            ==> v.0.latents.len() == 1),
        sp_parse_chunk(s, pos, wrapped) matches Ok(v) ==> (v.0.mode is FloatMult
            ==> v.0.latents.len() == 2),
{
    match sp_parse_chunk_body(s, pos, wrapped) {
        Ok(v) => {
            let c = v.0;
            if wrapped {
                match sp_parse_mode(s, pos) {
                    Ok(mv) => {
                        lemma_latent_seq_len(
                            s,
                            sp_read(s, mv.1, crate::constants::BITS_TO_ENCODE_DELTA_ENCODING_ORDER
                                as nat)->Ok_0.1,
                            mv.0,
                            spec_n_latents(mv.0),
                        );
                    },
                    Err(_) => {},
                }
            } else {
                let p2 = sp_read(s, sp_read(s, pos, BITS_TO_ENCODE_N_ENTRIES as nat)->Ok_0.1,
                    BITS_TO_ENCODE_COMPRESSED_BODY_SIZE as nat)->Ok_0.1;
                match sp_parse_mode(s, p2) {
                    Ok(mv) => {
                        lemma_latent_seq_len(
                            s,
                            sp_read(s, mv.1, crate::constants::BITS_TO_ENCODE_DELTA_ENCODING_ORDER
                                as nat)->Ok_0.1,
                            mv.0,
                            spec_n_latents(mv.0),
                        );
                    },
                    Err(_) => {},
                }
            }
        },
        Err(_) => {},
    }
}

} // verus!
