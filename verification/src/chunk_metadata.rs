//! Chunk and page metadata records and their serialization.

use vstd::prelude::*;

verus! {

use vstd::arithmetic::div_mod::lemma_fundamental_div_mod;
use vstd::arithmetic::div_mod::lemma_mod_multiples_vanish;
use vstd::arithmetic::power2::lemma2_to64;
use vstd::arithmetic::power2::lemma_pow2_strictly_increases;
use vstd::arithmetic::power2::pow2;
use crate::bin::Bin;
use crate::bin::bins_are_trivial;
use crate::bin::spec_bins_are_trivial;
use crate::bit_reader::BitReader;
use crate::bit_reader::sp_read;
use crate::bit_writer::BitWriter;
use crate::bits::exec_pow2;
use crate::bits::u_bits;
use crate::constants::ANS_INTERLEAVING;
use crate::constants::AnsState;
use crate::constants::BITS_TO_ENCODE_ANS_SIZE_LOG;
use crate::constants::BITS_TO_ENCODE_COMPRESSED_BODY_SIZE;
use crate::constants::BITS_TO_ENCODE_DELTA_ENCODING_ORDER;
use crate::constants::BITS_TO_ENCODE_MODE;
use crate::constants::BITS_TO_ENCODE_N_BINS;
use crate::constants::BITS_TO_ENCODE_N_ENTRIES;
use crate::constants::BITS_TO_ENCODE_OFFSET_BITS;
use crate::constants::Bitlen;
use crate::constants::U_BITS;
use crate::constants::Weight;
use crate::delta::DeltaMoments;
use crate::errors::CorruptionKind;
use crate::errors::PcoError;
use crate::errors::PcoResult;
use crate::flags::Flags;
use crate::format::enc_bin;
use crate::format::enc_bin_seq;
use crate::format::enc_bins;
use crate::format::enc_chunk;
use crate::format::enc_chunk_body;
use crate::format::enc_latent;
use crate::format::enc_latent_seq;
use crate::format::enc_mode;
use crate::format::enc_page;
use crate::format::enc_page_latent;
use crate::format::enc_page_latent_seq;
use crate::format::enc_states;
use crate::format::lemma_enc_bin_seq_snoc;
use crate::format::sp_parse_bin;
use crate::format::sp_parse_bin_seq;
use crate::format::sp_parse_bins;
use crate::format::sp_parse_chunk;
use crate::format::sp_parse_chunk_after_sizes;
use crate::format::sp_parse_latent;
use crate::format::sp_parse_latent_seq;
use crate::format::sp_parse_mode;
use crate::format::sp_parse_page;
use crate::format::sp_parse_page_latent;
use crate::format::sp_parse_page_latent_seq;
use crate::format::sp_parse_states;
use crate::format::wf_bin;
use crate::format::wf_chunk;
use crate::format::wf_latent;
use crate::format::wf_page_latent;
use crate::modes::Mode;
use crate::modes::spec_latent_delta_order;
use crate::modes::spec_n_latents;
use crate::modes::spec_use_gcd_arithmetic;
use crate::modes::use_gcd_arithmetic;

/// Ghost image of [`ChunkLatentMetadata`].
#[verifier::ext_equal]
pub ghost struct ChunkLatentMetadataV {
    /// See [`ChunkLatentMetadata::ans_size_log`].
    pub ans_size_log: Bitlen,
    /// See [`ChunkLatentMetadata::bins`].
    pub bins: Seq<Bin>,
}

/// Chunk-level description of one latent variable interleaved into the
/// compressed data: its ANS table size and the bins that feed the table.
#[derive(Clone, Debug, PartialEq)]
pub struct ChunkLatentMetadata {
    /// Log2 of the number of states in this latent's ANS table.
    pub ans_size_log: Bitlen,
    /// How the latent's values are bucketed, depending on their range.
    pub bins: Vec<Bin>,
}

impl View for ChunkLatentMetadata {
    type V = ChunkLatentMetadataV;

    open spec fn view(&self) -> ChunkLatentMetadataV {
        ChunkLatentMetadataV { ans_size_log: self.ans_size_log, bins: self.bins@ }
    }
}

/// Ghost image of [`PageLatentMetadata`].
#[verifier::ext_equal]
pub ghost struct PageLatentMetadataV {
    /// See [`PageLatentMetadata::delta_moments`].
    pub delta_moments: Seq<u64>,
    /// See [`PageLatentMetadata::ans_final_state_idxs`].
    pub ans_final_state_idxs: Seq<AnsState>,
}

/// Page-level state of one latent: the delta seeds for this page and the
/// ANS state of each interleaved lane at the point encoding stopped.
#[derive(Clone, Debug, PartialEq)]
pub struct PageLatentMetadata {
    /// Seeds for the delta-reconstruction recurrence.
    pub delta_moments: DeltaMoments,
    /// Final ANS state per interleaved lane, each an index below the
    /// latent's table size; decoding seeds from these.
    pub ans_final_state_idxs: [AnsState; ANS_INTERLEAVING],
}

impl View for PageLatentMetadata {
    type V = PageLatentMetadataV;

    open spec fn view(&self) -> PageLatentMetadataV {
        PageLatentMetadataV {
            delta_moments: self.delta_moments@,
            ans_final_state_idxs: self.ans_final_state_idxs@,
        }
    }
}

/// Ghost image of [`ChunkMetadata`].
#[verifier::ext_equal]
pub ghost struct ChunkMetadataV {
    /// See [`ChunkMetadata::n`].
    pub n: usize,
    /// See [`ChunkMetadata::compressed_body_size`].
    pub compressed_body_size: usize,
    /// See [`ChunkMetadata::mode`].
    pub mode: crate::modes::Mode,
    /// See [`ChunkMetadata::delta_encoding_order`].
    pub delta_encoding_order: usize,
    /// See [`ChunkMetadata::latents`].
    pub latents: Seq<ChunkLatentMetadataV>,
}

/// The top-level per-chunk record.
///
/// Constructed once per chunk at compress time; immutable afterwards except
/// for a single backpatch of `compressed_body_size` once the payload length
/// is known. At decompress time it is parsed first and then held read-only.
#[derive(Clone, Debug, PartialEq)]
pub struct ChunkMetadata {
    /// The count of numbers in the chunk. Not stored in wrapped mode.
    pub n: usize,
    /// The compressed byte length of the body that immediately follows this
    /// chunk metadata section. Not stored in wrapped mode.
    pub compressed_body_size: usize,
    /// The transform used to compress each number at a low level.
    pub mode: crate::modes::Mode,
    /// How many times delta encoding was applied during compression;
    /// stored as 3 bits to express 0 through 7.
    pub delta_encoding_order: usize,
    /// The interleaved latents' metadata, one per latent the mode needs.
    pub latents: Vec<ChunkLatentMetadata>,
}

impl View for ChunkMetadata {
    type V = ChunkMetadataV;

    open spec fn view(&self) -> ChunkMetadataV {
        ChunkMetadataV {
            n: self.n,
            compressed_body_size: self.compressed_body_size,
            mode: self.mode,
            delta_encoding_order: self.delta_encoding_order,
            latents: self.latents@.map_values(|l: ChunkLatentMetadata| l@),
        }
    }
}

/// Ghost image of [`PageMetadata`].
#[verifier::ext_equal]
pub ghost struct PageMetadataV {
    /// See [`PageMetadata::latents`].
    pub latents: Seq<PageLatentMetadataV>,
}

/// The per-page record: one latent's page state per chunk latent, parsed
/// and written against the owning chunk's table sizes and delta orders.
#[derive(Clone, Debug, PartialEq)]
pub struct PageMetadata {
    /// Page state per latent, in the chunk's latent order.
    pub latents: Vec<PageLatentMetadata>,
}

impl View for PageMetadata {
    type V = PageMetadataV;

    open spec fn view(&self) -> PageMetadataV {
        PageMetadataV { latents: self.latents@.map_values(|l: PageLatentMetadata| l@) }
    }
}

/// How a chunk's entries are split across pages.
///
/// Pure data: validating that explicit sizes sum to the chunk's entry count
/// is the caller's responsibility before pages are written. The set is
/// closed but may grow in later revisions; an unrecognized strategy must be
/// rejected as a compatibility error, never guessed at.
#[derive(Clone, Debug, PartialEq)]
pub enum PagingSpec {
    /// The chunk's entire entry count forms one page.
    SinglePage,
    /// Explicit per-page entry counts; they must sum to the chunk's `n`.
    ExactPageSizes(Vec<usize>),
}

impl Default for PagingSpec {
    /// One page per chunk unless the caller says otherwise.
    fn default() -> (r: Self)
        ensures
            r is SinglePage,
    {
        PagingSpec::SinglePage
    }
}

/// Writes a bin table: the bin count, then each bin's fields, with `gcd`
/// present only in GCD mode for bins with a nonzero offset.
pub fn write_bins(bins: &Vec<Bin>, mode: Mode, ans_size_log: Bitlen, writer: &mut BitWriter)
    requires
        ans_size_log < 16,
        bins@.len() < pow2(BITS_TO_ENCODE_N_BINS as nat),
        forall|i: int|
            0 <= i < bins@.len() ==> wf_bin(#[trigger] bins@[i], mode, ans_size_log as nat),
    ensures
        final(writer)@ == old(writer)@ + enc_bins(bins@, mode, ans_size_log as nat),
{
    let ghost orig = writer@;
    let ghost bs = bins@;
    let ghost a = ans_size_log as nat;
    let ghost header = u_bits(bs.len() as nat, BITS_TO_ENCODE_N_BINS as nat);
    writer.write_usize(bins.len(), BITS_TO_ENCODE_N_BINS);
    let mut i: usize = 0;
    proof {
        assert(enc_bin_seq(bs.take(0), mode, a) =~= Seq::<bool>::empty());
        assert(writer@ =~= orig + header + enc_bin_seq(bs.take(0), mode, a));
    }
    while i < bins.len()
        invariant
            i <= bs.len(),
            bs == bins@,
            a == ans_size_log as nat,
            ans_size_log < 16,
            forall|j: int| 0 <= j < bs.len() ==> wf_bin(#[trigger] bs[j], mode, a),
            header == u_bits(bs.len() as nat, BITS_TO_ENCODE_N_BINS as nat),
            writer@ == orig + header + enc_bin_seq(bs.take(i as int), mode, a),
        decreases bs.len() - i,
    {
        let ghost before = writer@;
        let b = bins[i];
        proof {
            assert(wf_bin(bs[i as int], mode, a));
            lemma2_to64();
            if a < 64 {
                lemma_pow2_strictly_increases(a, 64);
            }
        }
        let weight_m1: Weight = b.weight - 1;
        writer.write_uint(weight_m1 as u64, ans_size_log);
        writer.write_uint(b.lower, U_BITS);
        writer.write_bitlen(b.offset_bits, BITS_TO_ENCODE_OFFSET_BITS);
        match mode {
            Mode::Classic => (),
            Mode::Gcd => {
                if b.offset_bits > 0 {
                    writer.write_uint(b.gcd, U_BITS);
                }
            },
            Mode::FloatMult(_) => (),
        }
        proof {
            assert(writer@ =~= before + enc_bin(bs[i as int], mode, a));
            lemma_enc_bin_seq_snoc(bs.take(i as int), bs[i as int], mode, a);
            assert(bs.take(i + 1) =~= bs.take(i as int).push(bs[i as int]));
            assert(writer@ =~= orig + header + enc_bin_seq(bs.take(i + 1), mode, a));
        }
        i = i + 1;
    }
    proof {
        assert(bs.take(bs.len() as int) =~= bs);
        assert(writer@ =~= orig + enc_bins(bs, mode, a));
    }
}

/// Parses one bin.
fn parse_bin(reader: &mut BitReader, mode: Mode, ans_size_log: Bitlen) -> (r: PcoResult<Bin>)
    requires
        old(reader).wf(),
        ans_size_log < 16,
    ensures
        final(reader).wf(),
        final(reader).bits@ == old(reader).bits@,
        match sp_parse_bin(old(reader).bits@, old(reader).pos as int, mode, ans_size_log as nat) {
            Ok(v) => r == Ok::<Bin, PcoError>(v.0) && final(reader).pos == v.1,
            Err(e) => r == Err::<Bin, PcoError>(e),
        },
{
    proof {
        lemma2_to64();
        if (ans_size_log as nat) < 15 {
            lemma_pow2_strictly_increases(ans_size_log as nat, 15);
        }
    }
    let x = reader.read_uint(ans_size_log)?;
    let weight: Weight = (x as u32) + 1;
    let lower = reader.read_uint(U_BITS)?;
    let offset_bits = reader.read_bitlen(BITS_TO_ENCODE_OFFSET_BITS)?;
    if offset_bits > U_BITS {
        return Err(PcoError::Corruption(CorruptionKind::OffsetBitsTooLarge { offset_bits }));
    }
    let gcd: u64 = if matches!(mode, Mode::Gcd) && offset_bits != 0 {
        reader.read_uint(U_BITS)?
    } else {
        1
    };
    Ok(Bin { weight, lower, offset_bits, gcd })
}

/// Parses `count` bins one after the other.
fn parse_bin_seq(reader: &mut BitReader, mode: Mode, ans_size_log: Bitlen, count: usize) -> (r:
    PcoResult<Vec<Bin>>)
    requires
        old(reader).wf(),
        ans_size_log < 16,
    ensures
        final(reader).wf(),
        final(reader).bits@ == old(reader).bits@,
        match sp_parse_bin_seq(
            old(reader).bits@,
            old(reader).pos as int,
            mode,
            ans_size_log as nat,
            count as nat,
        ) {
            Ok(v) => r matches Ok(bs) && bs@ == v.0 && final(reader).pos == v.1,
            Err(e) => r == Err::<Vec<Bin>, PcoError>(e),
        },
    decreases count,
{
    if count == 0 {
        let empty: Vec<Bin> = Vec::new();
        proof {
            assert(empty@ =~= Seq::<Bin>::empty());
        }
        Ok(empty)
    } else {
        let b = parse_bin(reader, mode, ans_size_log)?;
        let mut rest = parse_bin_seq(reader, mode, ans_size_log, count - 1)?;
        let ghost prev = rest@;
        rest.insert(0, b);
        proof {
            assert(rest@ =~= seq![b] + prev);
        }
        Ok(rest)
    }
}

/// Parses a bin table, validating the bin count against the table size.
/// Each violated invariant is a distinct corruption error; nothing is
/// silently clamped.
pub fn parse_bins(reader: &mut BitReader, mode: Mode, ans_size_log: Bitlen) -> (r: PcoResult<
    Vec<Bin>,
>)
    requires
        old(reader).wf(),
        ans_size_log < 16,
    ensures
        final(reader).wf(),
        final(reader).bits@ == old(reader).bits@,
        match sp_parse_bins(old(reader).bits@, old(reader).pos as int, mode, ans_size_log as nat) {
            Ok(v) => r matches Ok(bs) && bs@ == v.0 && final(reader).pos == v.1,
            Err(e) => r == Err::<Vec<Bin>, PcoError>(e),
        },
{
    let ghost s = reader.bits@;
    let ghost pos0 = reader.pos as int;
    let n_bins = reader.read_usize(BITS_TO_ENCODE_N_BINS)?;
    let ghost c = sp_read(s, pos0, BITS_TO_ENCODE_N_BINS as nat)->Ok_0.0;
    proof {
        lemma2_to64();
        assert(c < pow2(15));
        assert(n_bins == c as usize);
        assert(n_bins as nat == c);
        assert(n_bins as u64 == c as u64);
    }
    let table = exec_pow2(ans_size_log);
    if table < n_bins as u64 {
        return Err(
            PcoError::Corruption(
                CorruptionKind::AnsSizeLogTooSmall { ans_size_log, n_bins: n_bins as u64 },
            ),
        );
    }
    if n_bins == 1 && ans_size_log > 0 {
        return Err(
            PcoError::Corruption(CorruptionKind::SingleBinNonzeroAnsSizeLog { ans_size_log }),
        );
    }
    parse_bin_seq(reader, mode, ans_size_log, n_bins)
}

impl ChunkLatentMetadata {
    /// Writes this latent's table size log, then its bin table.
    pub fn write_to(&self, mode: Mode, writer: &mut BitWriter)
        requires
            wf_latent(self@, mode),
        ensures
            final(writer)@ == old(writer)@ + enc_latent(self@, mode),
    {
        let ghost orig = writer@;
        proof {
            lemma2_to64();
        }
        writer.write_bitlen(self.ans_size_log, BITS_TO_ENCODE_ANS_SIZE_LOG);
        write_bins(&self.bins, mode, self.ans_size_log, writer);
        proof {
            assert(writer@ =~= orig + enc_latent(self@, mode));
        }
    }

    /// Parses one latent's metadata; the table size log comes first because
    /// bin-count validation depends on it.
    pub fn parse_from(reader: &mut BitReader, mode: Mode) -> (r: PcoResult<Self>)
        requires
            old(reader).wf(),
        ensures
            final(reader).wf(),
            final(reader).bits@ == old(reader).bits@,
            match sp_parse_latent(old(reader).bits@, old(reader).pos as int, mode) {
                Ok(v) => r matches Ok(l) && l@ == v.0 && final(reader).pos == v.1,
                Err(e) => r == Err::<Self, PcoError>(e),
            },
    {
        let ans_size_log = reader.read_bitlen(BITS_TO_ENCODE_ANS_SIZE_LOG)?;
        proof {
            lemma2_to64();
        }
        let bins = parse_bins(reader, mode, ans_size_log)?;
        let l = ChunkLatentMetadata { ans_size_log, bins };
        proof {
            assert(l@ =~= sp_parse_latent(
                old(reader).bits@,
                old(reader).pos as int,
                mode,
            )->Ok_0.0);
        }
        Ok(l)
    }
}

/// What the encoder may skip: whether GCD arithmetic is actually profitable
/// for this chunk and how many of its latents carry any signal.
pub open spec fn spec_nontrivial_gcd_and_n_latents(c: ChunkMetadataV) -> (bool, usize) {
    match c.mode {
        Mode::FloatMult(_) => (
            false,
            if spec_bins_are_trivial(c.latents[1].bins) {
                if spec_bins_are_trivial(c.latents[0].bins) {
                    0usize
                } else {
                    1usize
                }
            } else {
                2usize
            },
        ),
        _ => if spec_bins_are_trivial(c.latents[0].bins) {
            (false, 0usize)
        } else {
            (spec_use_gcd_arithmetic(c.latents[0].bins), 1usize)
        },
    }
}

impl ChunkMetadata {
    /// A fresh chunk record with a zero body-size placeholder, to be
    /// backpatched once the compressed payload's length is known.
    pub fn new(
        n: usize,
        mode: Mode,
        delta_encoding_order: usize,
        latents: Vec<ChunkLatentMetadata>,
    ) -> (r: Self)
        ensures
            r.n == n,
            r.compressed_body_size == 0,
            r.mode == mode,
            r.delta_encoding_order == delta_encoding_order,
            r.latents == latents,
    {
        ChunkMetadata { n, compressed_body_size: 0, mode, delta_encoding_order, latents }
    }

    /// Parses the mode tag and everything after it, with the size fields
    /// already in hand.
    #[verifier::rlimit(60)]
    fn parse_after_sizes(reader: &mut BitReader, n: usize, compressed_body_size: usize) -> (r:
        PcoResult<Self>)
        requires
            old(reader).wf(),
        ensures
            final(reader).wf(),
            final(reader).bits@ == old(reader).bits@,
            match sp_parse_chunk_after_sizes(
                old(reader).bits@,
                old(reader).pos as int,
                n as nat,
                compressed_body_size as nat,
            ) {
                Ok(v) => r matches Ok(m) && m@ == v.0 && final(reader).pos == v.1,
                Err(e) => r == Err::<Self, PcoError>(e),
            },
    {
        let ghost s = reader.bits@;
        let ghost pos0 = reader.pos as int;
        proof {
            lemma2_to64();
        }
        let tag = reader.read_usize(BITS_TO_ENCODE_MODE)?;
        proof {
            let tv = sp_read(s, pos0, BITS_TO_ENCODE_MODE as nat)->Ok_0.0;
            assert(tv < 16);
            assert(tag == tv as usize);
            assert(tag as nat == tv);
            assert(tag as u64 == tv as u64);
        }
        let mode = if tag == 0 {
            Mode::Classic
        } else if tag == 1 {
            Mode::Gcd
        } else if tag == 2 {
            let base = reader.read_uint(U_BITS)?;
            Mode::FloatMult(base)
        } else {
            return Err(PcoError::Compatibility { mode_tag: tag as u64 });
        };
        proof {
            assert(sp_parse_mode(s, pos0) matches Ok(v) && v.0 == mode && v.1 == reader.pos);
        }
        let delta_encoding_order = reader.read_usize(BITS_TO_ENCODE_DELTA_ENCODING_ORDER)?;
        let ghost pos_order = reader.pos as int;
        let n_latents = mode.n_latents();
        let mut latents: Vec<ChunkLatentMetadata> = Vec::new();
        let l0 = match ChunkLatentMetadata::parse_from(reader, mode) {
            Ok(l) => l,
            Err(e) => {
                return Err(e);
            },
        };
        latents.push(l0);
        let ghost pos_l0 = reader.pos as int;
        if n_latents > 1 {
            let l1 = match ChunkLatentMetadata::parse_from(reader, mode) {
                Ok(l) => l,
                Err(e) => {
                    proof {
                        assert(sp_parse_latent_seq(s, pos_l0, mode, 1) == Err::<
                            (Seq<ChunkLatentMetadataV>, int),
                            PcoError,
                        >(e));
                        assert(sp_parse_latent_seq(s, pos_order, mode, spec_n_latents(mode))
                            == Err::<(Seq<ChunkLatentMetadataV>, int), PcoError>(e));
                    }
                    return Err(e);
                },
            };
            latents.push(l1);
        }
        proof {
            let lsr = sp_parse_latent_seq(s, pos_order, mode, spec_n_latents(mode));
            if spec_n_latents(mode) == 1 {
                assert(sp_parse_latent_seq(s, pos_l0, mode, 0) == Ok::<
                    (Seq<ChunkLatentMetadataV>, int),
                    PcoError,
                >((Seq::empty(), pos_l0)));
                assert(lsr matches Ok(v) && latents@.map_values(|l: ChunkLatentMetadata| l@)
                    =~= v.0 && v.1 == reader.pos);
            } else {
                let pos_l1 = reader.pos as int;
                assert(sp_parse_latent_seq(s, pos_l1, mode, 0) == Ok::<
                    (Seq<ChunkLatentMetadataV>, int),
                    PcoError,
                >((Seq::empty(), pos_l1)));
                let l1r = sp_parse_latent_seq(s, pos_l0, mode, 1);
                assert(l1r matches Ok(v1));
                assert(l1r->Ok_0.0 =~= seq![latents@[1]@]);
                assert(l1r->Ok_0.1 == reader.pos);
                assert(lsr matches Ok(v) && latents@.map_values(|l: ChunkLatentMetadata| l@)
                    =~= v.0 && v.1 == reader.pos);
            }
        }
        let m = ChunkMetadata { n, compressed_body_size, mode, delta_encoding_order, latents };
        proof {
            let v = sp_parse_chunk_after_sizes(s, pos0, n as nat, compressed_body_size as nat)->Ok_0;
            assert(m@ =~= v.0);
        }
        Ok(m)
    }

    /// Parses a whole chunk metadata record; the stream must already sit at
    /// a byte boundary. In wrapped mode the sizes belong to the outer format
    /// and are left zero.
    pub fn parse_from(reader: &mut BitReader, flags: &Flags) -> (r: PcoResult<Self>)
        requires
            old(reader).wf(),
        ensures
            final(reader).wf(),
            final(reader).bits@ == old(reader).bits@,
            match sp_parse_chunk(
                old(reader).bits@,
                old(reader).pos as int,
                flags.use_wrapped_mode,
            ) {
                Ok(v) => r matches Ok(m) && m@ == v.0 && final(reader).pos == v.1,
                Err(e) => r == Err::<Self, PcoError>(e),
            },
    {
        let ghost s = reader.bits@;
        let ghost pos0 = reader.pos as int;
        let (n, compressed_body_size) = if flags.use_wrapped_mode {
            (0usize, 0usize)
        } else {
            let n = reader.read_usize(BITS_TO_ENCODE_N_ENTRIES)?;
            let cbs = reader.read_usize(BITS_TO_ENCODE_COMPRESSED_BODY_SIZE)?;
            (n, cbs)
        };
        let m = Self::parse_after_sizes(reader, n, compressed_body_size)?;
        reader.drain_empty_byte(CorruptionKind::NonzeroPaddingChunk)?;
        Ok(m)
    }

    /// Writes a whole chunk metadata record at a byte boundary, zero-padded
    /// to the next byte boundary. In standalone mode the stored body size is
    /// whatever this record holds — usually the zero placeholder, later
    /// backpatched by [`Self::update_write_compressed_body_size`].
    pub fn write_to(&self, flags: &Flags, writer: &mut BitWriter)
        requires
            wf_chunk(self@),
            old(writer)@.len() % 8 == 0,
        ensures
            final(writer)@ == old(writer)@ + enc_chunk(self@, flags.use_wrapped_mode),
    {
        let ghost orig = writer@;
        let ghost c = self@;
        let ghost wrapped = flags.use_wrapped_mode;
        proof {
            lemma2_to64();
        }
        if !flags.use_wrapped_mode {
            writer.write_usize(self.n, BITS_TO_ENCODE_N_ENTRIES);
            writer.write_usize(self.compressed_body_size, BITS_TO_ENCODE_COMPRESSED_BODY_SIZE);
        }
        let mode_value: usize = match self.mode {
            Mode::Classic => 0,
            Mode::Gcd => 1,
            Mode::FloatMult(_) => 2,
        };
        writer.write_usize(mode_value, BITS_TO_ENCODE_MODE);
        if let Mode::FloatMult(base) = self.mode {
            writer.write_uint(base, U_BITS);
        }
        writer.write_usize(self.delta_encoding_order, BITS_TO_ENCODE_DELTA_ENCODING_ORDER);
        let ghost before_latents = writer@;
        proof {
            assert(c.latents[0] == self.latents@[0]@);
            assert(before_latents =~= orig + (if wrapped {
                Seq::<bool>::empty()
            } else {
                u_bits(c.n as nat, BITS_TO_ENCODE_N_ENTRIES as nat) + u_bits(
                    c.compressed_body_size as nat,
                    BITS_TO_ENCODE_COMPRESSED_BODY_SIZE as nat,
                )
            }) + enc_mode(c.mode) + u_bits(
                c.delta_encoding_order as nat,
                BITS_TO_ENCODE_DELTA_ENCODING_ORDER as nat,
            ));
        }
        self.latents[0].write_to(self.mode, writer);
        if self.latents.len() > 1 {
            proof {
                assert(c.latents[1] == self.latents@[1]@);
            }
            self.latents[1].write_to(self.mode, writer);
        }
        proof {
            if c.latents.len() == 1 {
                assert(c.latents.drop_first() =~= Seq::<ChunkLatentMetadataV>::empty());
                assert(enc_latent_seq(c.latents, c.mode) == enc_latent(c.latents[0], c.mode)
                    + enc_latent_seq(c.latents.drop_first(), c.mode));
            } else {
                assert(c.latents.len() == 2);
                let dropped = c.latents.drop_first();
                assert(dropped[0] == c.latents[1]);
                assert(dropped.drop_first() =~= Seq::<ChunkLatentMetadataV>::empty());
                assert(enc_latent_seq(c.latents, c.mode) == enc_latent(c.latents[0], c.mode)
                    + enc_latent_seq(dropped, c.mode));
                assert(enc_latent_seq(dropped, c.mode) == enc_latent(dropped[0], c.mode)
                    + enc_latent_seq(dropped.drop_first(), c.mode));
            }
            assert(writer@ =~= orig + enc_chunk_body(c, wrapped));
        }
        let ghost body_len = enc_chunk_body(c, wrapped).len();
        writer.finish_byte();
        proof {
            lemma_fundamental_div_mod(orig.len() as int, 8);
            lemma_mod_multiples_vanish(orig.len() as int / 8, body_len as int, 8);
            assert((orig.len() + body_len) % 8 == body_len % 8);
            assert(writer@ =~= orig + enc_chunk(c, wrapped));
        }
    }

    /// Backpatches the compressed body size in place. `bit_idx` is the
    /// remembered offset just before the one-byte marker that precedes this
    /// chunk's metadata, so the size field sits one byte plus one entry-count
    /// field further on.
    pub fn update_write_compressed_body_size(&self, writer: &mut BitWriter, bit_idx: usize)
        requires
            (self.compressed_body_size as nat) < pow2(BITS_TO_ENCODE_COMPRESSED_BODY_SIZE as nat),
            bit_idx + 8 + BITS_TO_ENCODE_N_ENTRIES + BITS_TO_ENCODE_COMPRESSED_BODY_SIZE <= old(
                writer,
            )@.len(),
        ensures
            final(writer)@ == old(writer)@.subrange(
                0,
                bit_idx + 8 + BITS_TO_ENCODE_N_ENTRIES,
            ).add(
                u_bits(
                    self.compressed_body_size as nat,
                    BITS_TO_ENCODE_COMPRESSED_BODY_SIZE as nat,
                ),
            ).add(
                old(writer)@.subrange(
                    bit_idx + 8 + BITS_TO_ENCODE_N_ENTRIES
                        + BITS_TO_ENCODE_COMPRESSED_BODY_SIZE,
                    old(writer)@.len() as int,
                ),
            ),
    {
        let total = writer.bit_idx();
        let idx = bit_idx + (BITS_TO_ENCODE_N_ENTRIES as usize) + 8;
        writer.overwrite_usize(idx, self.compressed_body_size, BITS_TO_ENCODE_COMPRESSED_BODY_SIZE);
    }

    /// Reports whether GCD arithmetic is worth running for this chunk and
    /// how many of its latents carry any signal; an optimization query, not
    /// a serialized field.
    pub fn nontrivial_gcd_and_n_latents(&self) -> (r: (bool, usize))
        requires
            wf_chunk(self@),
        ensures
            r == spec_nontrivial_gcd_and_n_latents(self@),
    {
        proof {
            assert(self@.latents[0] == self.latents@[0]@);
        }
        match self.mode {
            Mode::Classic | Mode::Gcd => {
                if bins_are_trivial(&self.latents[0].bins) {
                    (false, 0)
                } else {
                    let needs_gcd = use_gcd_arithmetic(&self.latents[0].bins);
                    (needs_gcd, 1)
                }
            },
            Mode::FloatMult(_) => {
                proof {
                    assert(self@.latents[1] == self.latents@[1]@);
                }
                let n_latents: usize = if bins_are_trivial(&self.latents[1].bins) {
                    if bins_are_trivial(&self.latents[0].bins) {
                        0
                    } else {
                        1
                    }
                } else {
                    2
                };
                (false, n_latents)
            },
        }
    }

    /// How many times delta encoding was applied to the latent at
    /// `latent_idx` of this chunk.
    pub fn latent_delta_order(&self, latent_idx: usize) -> (r: usize)
        ensures
            r == spec_latent_delta_order(
                self@.mode,
                latent_idx as nat,
                self@.delta_encoding_order as nat,
            ),
    {
        self.mode.latent_delta_order(latent_idx, self.delta_encoding_order)
    }
}

impl PageLatentMetadata {
    /// Writes this latent's delta moments, then its final ANS states at the
    /// table width.
    pub fn write_to(&self, ans_size_log: Bitlen, writer: &mut BitWriter)
        requires
            ans_size_log <= 64,
            wf_page_latent(self@, ans_size_log as nat),
        ensures
            final(writer)@ == old(writer)@ + enc_page_latent(self@, ans_size_log as nat),
    {
        let ghost orig = writer@;
        let ghost a = ans_size_log as nat;
        let ghost q = self@.ans_final_state_idxs;
        self.delta_moments.write_to(writer);
        writer.write_uint(self.ans_final_state_idxs[0], ans_size_log);
        writer.write_uint(self.ans_final_state_idxs[1], ans_size_log);
        writer.write_uint(self.ans_final_state_idxs[2], ans_size_log);
        writer.write_uint(self.ans_final_state_idxs[3], ans_size_log);
        proof {
            let q1 = q.drop_first();
            let q2 = q1.drop_first();
            let q3 = q2.drop_first();
            assert(q1[0] == q[1] && q2[0] == q[2] && q3[0] == q[3]);
            assert(q3.drop_first() =~= Seq::<AnsState>::empty());
            assert(enc_states(q3.drop_first(), a) == Seq::<bool>::empty());
            assert(enc_states(q3, a) == u_bits(q[3] as nat, a) + enc_states(q3.drop_first(), a));
            assert(enc_states(q2, a) == u_bits(q[2] as nat, a) + enc_states(q3, a));
            assert(enc_states(q1, a) == u_bits(q[1] as nat, a) + enc_states(q2, a));
            assert(enc_states(q, a) == u_bits(q[0] as nat, a) + enc_states(q1, a));
            assert(writer@ =~= orig + enc_page_latent(self@, a));
        }
    }

    /// Reads `delta_order` moments, then the final ANS state of each
    /// interleaved lane at the table width; the exact mirror of
    /// [`Self::write_to`].
    pub fn parse_from(reader: &mut BitReader, delta_order: usize, ans_size_log: Bitlen) -> (r:
        PcoResult<Self>)
        requires
            old(reader).wf(),
            ans_size_log <= 64,
        ensures
            final(reader).wf(),
            final(reader).bits@ == old(reader).bits@,
            match sp_parse_page_latent(
                old(reader).bits@,
                old(reader).pos as int,
                delta_order as nat,
                ans_size_log as nat,
            ) {
                Ok(v) => r matches Ok(pl) && pl@ == v.0 && final(reader).pos == v.1,
                Err(e) => r == Err::<Self, PcoError>(e),
            },
    {
        let ghost s = reader.bits@;
        let ghost pos0 = reader.pos as int;
        let ghost a = ans_size_log as nat;
        let delta_moments = DeltaMoments::parse_from(reader, delta_order)?;
        let ghost p_dm = reader.pos as int;
        let s0 = reader.read_uint(ans_size_log)?;
        let ghost p1 = reader.pos as int;
        let s1 = reader.read_uint(ans_size_log)?;
        let ghost p2 = reader.pos as int;
        let s2 = reader.read_uint(ans_size_log)?;
        let ghost p3 = reader.pos as int;
        let s3 = reader.read_uint(ans_size_log)?;
        let ghost p4 = reader.pos as int;
        let pl = PageLatentMetadata { delta_moments, ans_final_state_idxs: [s0, s1, s2, s3] };
        proof {
            assert(sp_parse_states(s, p4, a, 0) == Ok::<(Seq<AnsState>, int), PcoError>(
                (Seq::empty(), p4),
            ));
            let st1 = sp_parse_states(s, p3, a, 1);
            assert(st1 matches Ok(_));
            assert(st1->Ok_0.0 =~= seq![s3]);
            assert(st1->Ok_0.1 == p4);
            let st2 = sp_parse_states(s, p2, a, 2);
            assert(st2 matches Ok(_));
            assert(st2->Ok_0.0 =~= seq![s2, s3]);
            assert(st2->Ok_0.1 == p4);
            let st3 = sp_parse_states(s, p1, a, 3);
            assert(st3 matches Ok(_));
            assert(st3->Ok_0.0 =~= seq![s1, s2, s3]);
            assert(st3->Ok_0.1 == p4);
            let st4 = sp_parse_states(s, p_dm, a, ANS_INTERLEAVING as nat);
            assert(st4 matches Ok(_));
            assert(st4->Ok_0.0 =~= seq![s0, s1, s2, s3]);
            assert(st4->Ok_0.1 == p4);
            assert(pl.ans_final_state_idxs@ =~= seq![s0, s1, s2, s3]);
            let v = sp_parse_page_latent(s, pos0, delta_order as nat, a)->Ok_0;
            assert(pl@ =~= v.0);
        }
        Ok(pl)
    }
}

impl PageMetadata {
    /// Writes every latent's page metadata, each at its own table width,
    /// then pads the stream to the next byte boundary.
    pub fn write_to(&self, ans_size_logs: &Vec<Bitlen>, writer: &mut BitWriter)
        requires
            old(writer)@.len() % 8 == 0,
            ans_size_logs@.len() == self.latents@.len(),
            forall|i: int| 0 <= i < self.latents@.len() ==> (#[trigger] ans_size_logs@[i]) <= 64,
            forall|i: int|
                0 <= i < self.latents@.len() ==> wf_page_latent(
                    #[trigger] self@.latents[i],
                    ans_size_logs@[i] as nat,
                ),
        ensures
            final(writer)@ == old(writer)@ + enc_page(self@, ans_size_logs@),
    {
        let ghost orig = writer@;
        let ghost pls = self@.latents;
        let ghost logs = ans_size_logs@;
        let mut i: usize = 0;
        while i < self.latents.len()
            invariant
                i <= pls.len(),
                pls == self@.latents,
                logs == ans_size_logs@,
                logs.len() == pls.len(),
                forall|j: int| 0 <= j < pls.len() ==> (#[trigger] logs[j]) <= 64,
                forall|j: int|
                    0 <= j < pls.len() ==> wf_page_latent(#[trigger] pls[j], logs[j] as nat),
                writer@ + enc_page_latent_seq(pls, logs, i as nat) == orig + enc_page_latent_seq(
                    pls,
                    logs,
                    0,
                ),
            decreases pls.len() - i,
        {
            let ghost before = writer@;
            proof {
                assert(pls[i as int] == self.latents@[i as int]@);
            }
            self.latents[i].write_to(ans_size_logs[i], writer);
            proof {
                assert(enc_page_latent_seq(pls, logs, i as nat) == enc_page_latent(
                    pls[i as int],
                    logs[i as int] as nat,
                ) + enc_page_latent_seq(pls, logs, i as nat + 1));
                assert(writer@ + enc_page_latent_seq(pls, logs, (i + 1) as nat) =~= orig
                    + enc_page_latent_seq(pls, logs, 0));
            }
            i = i + 1;
        }
        proof {
            assert(enc_page_latent_seq(pls, logs, pls.len() as nat) == Seq::<bool>::empty());
            assert(writer@ =~= writer@ + enc_page_latent_seq(pls, logs, pls.len() as nat));
            assert(writer@ =~= orig + enc_page_latent_seq(pls, logs, 0));
        }
        let ghost body_len = enc_page_latent_seq(pls, logs, 0).len();
        writer.finish_byte();
        proof {
            lemma_fundamental_div_mod(orig.len() as int, 8);
            lemma_mod_multiples_vanish(orig.len() as int / 8, body_len as int, 8);
            assert((orig.len() + body_len) % 8 == body_len % 8);
            assert(writer@ =~= orig + enc_page(self@, logs));
        }
    }

    /// Parses a page's metadata against its owning chunk: one latent per
    /// chunk latent, each with that latent's delta order and table width,
    /// then the zero padding.
    pub fn parse_from(reader: &mut BitReader, chunk_meta: &ChunkMetadata) -> (r: PcoResult<Self>)
        requires
            old(reader).wf(),
            wf_chunk(chunk_meta@),
        ensures
            final(reader).wf(),
            final(reader).bits@ == old(reader).bits@,
            match sp_parse_page(old(reader).bits@, old(reader).pos as int, chunk_meta@) {
                Ok(v) => r matches Ok(p) && p@ == v.0 && final(reader).pos == v.1,
                Err(e) => r == Err::<Self, PcoError>(e),
            },
    {
        let ghost s = reader.bits@;
        let ghost pos0 = reader.pos as int;
        let ghost c = chunk_meta@;
        proof {
            lemma2_to64();
            assert(c.latents[0] == chunk_meta.latents@[0]@);
            assert(wf_latent(c.latents[0], c.mode));
        }
        let mut latents: Vec<PageLatentMetadata> = Vec::new();
        let l0 = PageLatentMetadata::parse_from(
            reader,
            chunk_meta.latent_delta_order(0),
            chunk_meta.latents[0].ans_size_log,
        )?;
        latents.push(l0);
        let ghost pos_l0 = reader.pos as int;
        if chunk_meta.latents.len() > 1 {
            proof {
                assert(c.latents[1] == chunk_meta.latents@[1]@);
                assert(wf_latent(c.latents[1], c.mode));
            }
            let l1 = match PageLatentMetadata::parse_from(
                reader,
                chunk_meta.latent_delta_order(1),
                chunk_meta.latents[1].ans_size_log,
            ) {
                Ok(l) => l,
                Err(e) => {
                    proof {
                        assert(sp_parse_page_latent_seq(s, pos_l0, c, 1) == Err::<
                            (Seq<PageLatentMetadataV>, int),
                            PcoError,
                        >(e));
                        assert(sp_parse_page_latent_seq(s, pos0, c, 0) == Err::<
                            (Seq<PageLatentMetadataV>, int),
                            PcoError,
                        >(e));
                    }
                    return Err(e);
                },
            };
            latents.push(l1);
        }
        proof {
            let lsr = sp_parse_page_latent_seq(s, pos0, c, 0);
            if c.latents.len() == 1 {
                assert(sp_parse_page_latent_seq(s, pos_l0, c, 1) == Ok::<
                    (Seq<PageLatentMetadataV>, int),
                    PcoError,
                >((Seq::empty(), pos_l0)));
                assert(lsr matches Ok(v) && latents@.map_values(|l: PageLatentMetadata| l@)
                    =~= v.0 && v.1 == reader.pos);
            } else {
                let pos_l1 = reader.pos as int;
                assert(sp_parse_page_latent_seq(s, pos_l1, c, 2) == Ok::<
                    (Seq<PageLatentMetadataV>, int),
                    PcoError,
                >((Seq::empty(), pos_l1)));
                let l1r = sp_parse_page_latent_seq(s, pos_l0, c, 1);
                assert(l1r matches Ok(_));
                assert(l1r->Ok_0.0 =~= seq![latents@[1]@]);
                assert(l1r->Ok_0.1 == reader.pos);
                assert(lsr matches Ok(v) && latents@.map_values(|l: PageLatentMetadata| l@)
                    =~= v.0 && v.1 == reader.pos);
            }
        }
        reader.drain_empty_byte(CorruptionKind::NonzeroPaddingPage)?;
        let p = PageMetadata { latents };
        proof {
            let v = sp_parse_page(s, pos0, c)->Ok_0;
            assert(p@ =~= v.0);
        }
        Ok(p)
    }
}

} // verus!
