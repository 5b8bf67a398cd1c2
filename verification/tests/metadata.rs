use pco::bin::{bins_are_trivial, Bin};
use pco::bit_reader::BitReader;
use pco::bit_writer::BitWriter;
use pco::chunk_metadata::{
    ChunkLatentMetadata, ChunkMetadata, PageLatentMetadata, PageMetadata, PagingSpec,
};
use pco::delta::DeltaMoments;
use pco::errors::{CorruptionKind, PcoError};
use pco::flags::Flags;
use pco::modes::{use_gcd_arithmetic, Mode};

fn bin(weight: u32, lower: u64, offset_bits: u32, gcd: u64) -> Bin {
    Bin {
        weight,
        lower,
        offset_bits,
        gcd,
    }
}

fn classic_chunk() -> ChunkMetadata {
    ChunkMetadata {
        n: 1000,
        compressed_body_size: 0,
        mode: Mode::Classic,
        delta_encoding_order: 0,
        latents: vec![ChunkLatentMetadata {
            ans_size_log: 2,
            bins: vec![bin(2, 0, 0, 1), bin(2, 5, 1, 1)],
        }],
    }
}

fn standalone() -> Flags {
    Flags {
        use_wrapped_mode: false,
    }
}

fn wrapped() -> Flags {
    Flags {
        use_wrapped_mode: true,
    }
}

#[test]
fn chunk_round_trip_standalone_classic() {
    let chunk = classic_chunk();
    let mut writer = BitWriter::new();
    chunk.write_to(&standalone(), &mut writer);
    let mut reader = BitReader::new(writer.into_bits());
    let parsed = ChunkMetadata::parse_from(&mut reader, &standalone()).unwrap();
    assert_eq!(parsed, chunk);
    assert_eq!(parsed.nontrivial_gcd_and_n_latents(), (false, 1));
}

#[test]
fn chunk_round_trip_wrapped_classic() {
    let mut chunk = classic_chunk();
    chunk.n = 0;
    chunk.compressed_body_size = 0;
    let mut writer = BitWriter::new();
    chunk.write_to(&wrapped(), &mut writer);
    let mut reader = BitReader::new(writer.into_bits());
    let parsed = ChunkMetadata::parse_from(&mut reader, &wrapped()).unwrap();
    assert_eq!(parsed, chunk);
}

#[test]
fn wrapped_mode_stores_no_sizes() {
    let chunk = classic_chunk();
    let mut wrapped_writer = BitWriter::new();
    chunk.write_to(&wrapped(), &mut wrapped_writer);
    let mut standalone_writer = BitWriter::new();
    chunk.write_to(&standalone(), &mut standalone_writer);
    let wrapped_bits = wrapped_writer.into_bits();
    let standalone_bits = standalone_writer.into_bits();
    assert!(wrapped_bits.len() < standalone_bits.len());
    // a wrapped parse reads the sizes back as zero
    let mut reader = BitReader::new(wrapped_bits);
    let parsed = ChunkMetadata::parse_from(&mut reader, &wrapped()).unwrap();
    assert_eq!(parsed.n, 0);
    assert_eq!(parsed.compressed_body_size, 0);
}

#[test]
fn chunk_round_trip_gcd() {
    let chunk = ChunkMetadata {
        n: 7,
        compressed_body_size: 99,
        mode: Mode::Gcd,
        delta_encoding_order: 5,
        latents: vec![ChunkLatentMetadata {
            ans_size_log: 3,
            bins: vec![
                bin(4, 0, 3, 7),
                bin(3, 100, 0, 1),
                bin(1, 200, 2, 21),
            ],
        }],
    };
    let mut writer = BitWriter::new();
    chunk.write_to(&standalone(), &mut writer);
    let mut reader = BitReader::new(writer.into_bits());
    let parsed = ChunkMetadata::parse_from(&mut reader, &standalone()).unwrap();
    assert_eq!(parsed, chunk);
    assert_eq!(parsed.nontrivial_gcd_and_n_latents(), (true, 1));
}

#[test]
fn chunk_round_trip_float_mult_has_two_latents() {
    let base_bits = 0.1f64.to_bits();
    let chunk = ChunkMetadata {
        n: 12345,
        compressed_body_size: 0,
        mode: Mode::FloatMult(base_bits),
        delta_encoding_order: 3,
        latents: vec![
            ChunkLatentMetadata {
                ans_size_log: 1,
                bins: vec![bin(1, 3, 4, 1), bin(1, 77, 0, 1)],
            },
            ChunkLatentMetadata {
                ans_size_log: 0,
                bins: vec![bin(1, 0, 2, 1)],
            },
        ],
    };
    let mut writer = BitWriter::new();
    chunk.write_to(&standalone(), &mut writer);
    let mut reader = BitReader::new(writer.into_bits());
    let parsed = ChunkMetadata::parse_from(&mut reader, &standalone()).unwrap();
    assert_eq!(parsed, chunk);
    assert_eq!(parsed.latents.len(), 2);
    assert_eq!(parsed.mode, Mode::FloatMult(base_bits));
}

#[test]
fn classic_and_gcd_parse_one_latent() {
    for mode in [Mode::Classic, Mode::Gcd] {
        let chunk = ChunkMetadata {
            n: 1,
            compressed_body_size: 0,
            mode,
            delta_encoding_order: 0,
            latents: vec![ChunkLatentMetadata {
                ans_size_log: 0,
                bins: vec![bin(1, 0, 0, 1)],
            }],
        };
        let mut writer = BitWriter::new();
        chunk.write_to(&standalone(), &mut writer);
        let mut reader = BitReader::new(writer.into_bits());
        let parsed = ChunkMetadata::parse_from(&mut reader, &standalone()).unwrap();
        assert_eq!(parsed.latents.len(), 1);
    }
}

#[test]
fn single_bin_chunk_round_trips_with_zero_size_log() {
    let chunk = ChunkMetadata {
        n: 1000,
        compressed_body_size: 0,
        mode: Mode::Classic,
        delta_encoding_order: 0,
        latents: vec![ChunkLatentMetadata {
            ans_size_log: 0,
            bins: vec![bin(1, 0, 0, 1)],
        }],
    };
    let mut writer = BitWriter::new();
    chunk.write_to(&standalone(), &mut writer);
    let mut reader = BitReader::new(writer.into_bits());
    let parsed = ChunkMetadata::parse_from(&mut reader, &standalone()).unwrap();
    assert_eq!(parsed, chunk);
    assert_eq!(parsed.nontrivial_gcd_and_n_latents(), (false, 0));
}

#[test]
fn single_bin_with_nonzero_size_log_is_corruption() {
    // hand-built stream: sizes, Classic tag, order 0, then a latent whose
    // ans_size_log is 1 but whose bin count is 1
    let mut writer = BitWriter::new();
    writer.write_usize(1000, 24);
    writer.write_usize(0, 32);
    writer.write_usize(0, 4);
    writer.write_usize(0, 3);
    writer.write_bitlen(1, 4);
    writer.write_usize(1, 15);
    let mut reader = BitReader::new(writer.into_bits());
    let err = ChunkMetadata::parse_from(&mut reader, &standalone()).unwrap_err();
    assert_eq!(
        err,
        PcoError::Corruption(CorruptionKind::SingleBinNonzeroAnsSizeLog { ans_size_log: 1 })
    );
}

#[test]
fn bin_count_above_table_size_is_corruption() {
    let mut writer = BitWriter::new();
    writer.write_usize(2, 15);
    let mut reader = BitReader::new(writer.into_bits());
    let err = pco::chunk_metadata::parse_bins(&mut reader, Mode::Classic, 0).unwrap_err();
    assert_eq!(
        err,
        PcoError::Corruption(CorruptionKind::AnsSizeLogTooSmall {
            ans_size_log: 0,
            n_bins: 2
        })
    );
}

#[test]
fn offset_bits_above_type_width_is_corruption() {
    let mut writer = BitWriter::new();
    writer.write_usize(1, 15); // one bin, table size log 0: no weight bits
    writer.write_uint(0, 64); // lower
    writer.write_bitlen(65, 7); // offset_bits beyond the 64-bit type
    let mut reader = BitReader::new(writer.into_bits());
    let err = pco::chunk_metadata::parse_bins(&mut reader, Mode::Classic, 0).unwrap_err();
    assert_eq!(
        err,
        PcoError::Corruption(CorruptionKind::OffsetBitsTooLarge { offset_bits: 65 })
    );
}

#[test]
fn nonzero_chunk_padding_is_corruption() {
    // a fully valid chunk body followed by a set bit inside the padding
    let mut writer = BitWriter::new();
    writer.write_usize(1000, 24);
    writer.write_usize(0, 32);
    writer.write_usize(0, 4); // Classic
    writer.write_usize(0, 3); // delta order 0
    writer.write_bitlen(0, 4); // ans_size_log 0
    writer.write_usize(1, 15); // one bin
    writer.write_uint(0, 64); // lower
    writer.write_bitlen(0, 7); // offset_bits
    writer.write_uint(1, 7); // nonzero padding
    let mut reader = BitReader::new(writer.into_bits());
    let err = ChunkMetadata::parse_from(&mut reader, &standalone()).unwrap_err();
    assert_eq!(
        err,
        PcoError::Corruption(CorruptionKind::NonzeroPaddingChunk)
    );
}

#[test]
fn unknown_mode_tag_is_compatibility_not_classic() {
    for tag in [3usize, 7, 15] {
        let mut writer = BitWriter::new();
        writer.write_usize(1000, 24);
        writer.write_usize(0, 32);
        writer.write_usize(tag, 4);
        let mut reader = BitReader::new(writer.into_bits());
        let err = ChunkMetadata::parse_from(&mut reader, &standalone()).unwrap_err();
        assert_eq!(
            err,
            PcoError::Compatibility {
                mode_tag: tag as u64
            }
        );
    }
}

#[test]
fn truncated_stream_is_insufficient_data() {
    let mut reader = BitReader::new(Vec::new());
    let err = ChunkMetadata::parse_from(&mut reader, &standalone()).unwrap_err();
    assert_eq!(err, PcoError::InsufficientData);
}

#[test]
fn backpatch_updates_parsed_body_size() {
    let chunk = ChunkMetadata::new(
        1000,
        Mode::Classic,
        0,
        vec![ChunkLatentMetadata {
            ans_size_log: 2,
            bins: vec![bin(2, 0, 0, 1), bin(2, 5, 1, 1)],
        }],
    );
    assert_eq!(chunk.compressed_body_size, 0);
    let mut writer = BitWriter::new();
    let bit_idx = writer.bit_idx();
    writer.write_uint(0xA5, 8); // the marker byte preceding chunk metadata
    chunk.write_to(&standalone(), &mut writer);
    // an arbitrary 3-byte compressed body follows
    for byte in [0xDEu64, 0xAD, 0xBE] {
        writer.write_uint(byte, 8);
    }
    let mut patched = chunk.clone();
    patched.compressed_body_size = 3;
    patched.update_write_compressed_body_size(&mut writer, bit_idx);
    let mut reader = BitReader::new(writer.into_bits());
    reader.read_uint(8).unwrap();
    let parsed = ChunkMetadata::parse_from(&mut reader, &standalone()).unwrap();
    assert_eq!(parsed.compressed_body_size, 3);
    assert_eq!(parsed, patched);
}

#[test]
fn backpatch_handles_field_maximum() {
    let chunk = ChunkMetadata::new(
        0,
        Mode::Classic,
        0,
        vec![ChunkLatentMetadata {
            ans_size_log: 0,
            bins: vec![bin(1, 0, 0, 1)],
        }],
    );
    let mut writer = BitWriter::new();
    let bit_idx = writer.bit_idx();
    writer.write_uint(0, 8);
    chunk.write_to(&standalone(), &mut writer);
    let mut patched = chunk.clone();
    patched.compressed_body_size = (1usize << 32) - 1;
    patched.update_write_compressed_body_size(&mut writer, bit_idx);
    let mut reader = BitReader::new(writer.into_bits());
    reader.read_uint(8).unwrap();
    let parsed = ChunkMetadata::parse_from(&mut reader, &standalone()).unwrap();
    assert_eq!(parsed.compressed_body_size, (1usize << 32) - 1);
}

#[test]
fn page_round_trip_classic() {
    let chunk = ChunkMetadata {
        n: 50,
        compressed_body_size: 0,
        mode: Mode::Classic,
        delta_encoding_order: 2,
        latents: vec![ChunkLatentMetadata {
            ans_size_log: 2,
            bins: vec![bin(2, 0, 0, 1), bin(2, 5, 1, 1)],
        }],
    };
    let page = PageMetadata {
        latents: vec![PageLatentMetadata {
            delta_moments: DeltaMoments {
                moments: vec![123456789, u64::MAX],
            },
            ans_final_state_idxs: [3, 0, 1, 2],
        }],
    };
    let mut writer = BitWriter::new();
    page.write_to(&vec![2], &mut writer);
    let mut reader = BitReader::new(writer.into_bits());
    let parsed = PageMetadata::parse_from(&mut reader, &chunk).unwrap();
    assert_eq!(parsed, page);
}

#[test]
fn page_round_trip_float_mult() {
    let chunk = ChunkMetadata {
        n: 10,
        compressed_body_size: 0,
        mode: Mode::FloatMult(1.5f64.to_bits()),
        delta_encoding_order: 3,
        latents: vec![
            ChunkLatentMetadata {
                ans_size_log: 4,
                bins: vec![bin(8, 0, 1, 1), bin(8, 9, 0, 1)],
            },
            ChunkLatentMetadata {
                ans_size_log: 0,
                bins: vec![bin(1, 0, 0, 1)],
            },
        ],
    };
    // latent 0 carries the chunk's delta order 3; the auxiliary latent
    // carries none
    assert_eq!(chunk.latent_delta_order(0), 3);
    assert_eq!(chunk.latent_delta_order(1), 0);
    let page = PageMetadata {
        latents: vec![
            PageLatentMetadata {
                delta_moments: DeltaMoments {
                    moments: vec![1, 2, 3],
                },
                ans_final_state_idxs: [15, 14, 0, 7],
            },
            PageLatentMetadata {
                delta_moments: DeltaMoments { moments: vec![] },
                ans_final_state_idxs: [0, 0, 0, 0],
            },
        ],
    };
    let mut writer = BitWriter::new();
    page.write_to(&vec![4, 0], &mut writer);
    let mut reader = BitReader::new(writer.into_bits());
    let parsed = PageMetadata::parse_from(&mut reader, &chunk).unwrap();
    assert_eq!(parsed, page);
}

#[test]
fn page_encoding_is_independent_of_paging_spec() {
    // page metadata depends only on the chunk, never on how the chunk's
    // entries were split into pages
    let single = PagingSpec::SinglePage;
    let exact = PagingSpec::ExactPageSizes(vec![30, 20]);
    assert!(matches!(single, PagingSpec::SinglePage));
    assert!(matches!(exact, PagingSpec::ExactPageSizes(ref v) if v == &vec![30, 20]));
    assert!(matches!(PagingSpec::default(), PagingSpec::SinglePage));
    let page = PageMetadata {
        latents: vec![PageLatentMetadata {
            delta_moments: DeltaMoments { moments: vec![9] },
            ans_final_state_idxs: [1, 0, 1, 0],
        }],
    };
    let mut w1 = BitWriter::new();
    page.write_to(&vec![1], &mut w1);
    let mut w2 = BitWriter::new();
    page.write_to(&vec![1], &mut w2);
    assert_eq!(w1.into_bits(), w2.into_bits());
}

#[test]
fn nonzero_page_padding_is_corruption() {
    let chunk = ChunkMetadata {
        n: 10,
        compressed_body_size: 0,
        mode: Mode::Classic,
        delta_encoding_order: 0,
        latents: vec![ChunkLatentMetadata {
            ans_size_log: 3,
            bins: vec![bin(4, 0, 0, 1), bin(4, 9, 0, 1)],
        }],
    };
    let mut writer = BitWriter::new();
    // one latent, delta order 0: four 3-bit states, then padding
    for state in [1u64, 2, 3, 4] {
        writer.write_uint(state, 3);
    }
    writer.write_uint(1, 4); // nonzero padding
    let mut reader = BitReader::new(writer.into_bits());
    let err = PageMetadata::parse_from(&mut reader, &chunk).unwrap_err();
    assert_eq!(err, PcoError::Corruption(CorruptionKind::NonzeroPaddingPage));
}

#[test]
fn chunk_round_trip_max_delta_order() {
    let chunk = ChunkMetadata {
        n: (1 << 24) - 1,
        compressed_body_size: 0,
        mode: Mode::Classic,
        delta_encoding_order: 7,
        latents: vec![ChunkLatentMetadata {
            ans_size_log: 15,
            bins: vec![bin(1 << 14, 0, 64, 1), bin(1 << 14, u64::MAX, 0, 1)],
        }],
    };
    let mut writer = BitWriter::new();
    chunk.write_to(&standalone(), &mut writer);
    let mut reader = BitReader::new(writer.into_bits());
    let parsed = ChunkMetadata::parse_from(&mut reader, &standalone()).unwrap();
    assert_eq!(parsed, chunk);
}

#[test]
fn chunk_round_trip_empty_bin_table() {
    // a degenerate latent with no bins at all still round-trips
    let chunk = ChunkMetadata {
        n: 0,
        compressed_body_size: 0,
        mode: Mode::Classic,
        delta_encoding_order: 0,
        latents: vec![ChunkLatentMetadata {
            ans_size_log: 0,
            bins: vec![],
        }],
    };
    let mut writer = BitWriter::new();
    chunk.write_to(&standalone(), &mut writer);
    let mut reader = BitReader::new(writer.into_bits());
    let parsed = ChunkMetadata::parse_from(&mut reader, &standalone()).unwrap();
    assert_eq!(parsed, chunk);
    assert_eq!(parsed.nontrivial_gcd_and_n_latents(), (false, 0));
}

#[test]
fn delta_moments_round_trip() {
    let moments = DeltaMoments {
        moments: vec![0, 1, u64::MAX, 42],
    };
    assert_eq!(moments.order(), 4);
    let mut writer = BitWriter::new();
    moments.write_to(&mut writer);
    let mut reader = BitReader::new(writer.into_bits());
    let parsed = DeltaMoments::parse_from(&mut reader, 4).unwrap();
    assert_eq!(parsed, moments);
}

#[test]
fn trivial_bins_and_gcd_queries() {
    assert!(bins_are_trivial(&vec![]));
    assert!(bins_are_trivial(&vec![bin(1, 7, 0, 1)]));
    assert!(!bins_are_trivial(&vec![bin(1, 7, 2, 1)]));
    assert!(!bins_are_trivial(&vec![bin(1, 0, 0, 1), bin(1, 9, 0, 1)]));
    assert!(!use_gcd_arithmetic(&vec![bin(1, 0, 0, 9)])); // no offset bits
    assert!(!use_gcd_arithmetic(&vec![bin(1, 0, 3, 1)])); // gcd 1
    assert!(use_gcd_arithmetic(&vec![bin(1, 0, 3, 9)]));
}

#[test]
fn float_mult_trivial_latent_counts() {
    let trivial = ChunkLatentMetadata {
        ans_size_log: 0,
        bins: vec![bin(1, 0, 0, 1)],
    };
    let nontrivial = ChunkLatentMetadata {
        ans_size_log: 0,
        bins: vec![bin(1, 0, 3, 1)],
    };
    let make = |l0: &ChunkLatentMetadata, l1: &ChunkLatentMetadata| ChunkMetadata {
        n: 1,
        compressed_body_size: 0,
        mode: Mode::FloatMult(0),
        delta_encoding_order: 0,
        latents: vec![l0.clone(), l1.clone()],
    };
    assert_eq!(
        make(&trivial, &trivial).nontrivial_gcd_and_n_latents(),
        (false, 0)
    );
    assert_eq!(
        make(&nontrivial, &trivial).nontrivial_gcd_and_n_latents(),
        (false, 1)
    );
    assert_eq!(
        make(&trivial, &nontrivial).nontrivial_gcd_and_n_latents(),
        (false, 2)
    );
    assert_eq!(
        make(&nontrivial, &nontrivial).nontrivial_gcd_and_n_latents(),
        (false, 2)
    );
}

#[test]
fn error_messages_describe_the_violation() {
    let err = PcoError::Corruption(CorruptionKind::NonzeroPaddingChunk);
    assert!(err.message().contains("chunk metadata"));
    let err = PcoError::Compatibility { mode_tag: 9 };
    assert!(err.message().contains("unknown mode"));
}

#[test]
fn writer_reader_primitives_round_trip() {
    let mut writer = BitWriter::new();
    writer.write_uint(u64::MAX, 64);
    writer.write_uint(5, 3);
    writer.write_usize(1000, 24);
    writer.finish_byte();
    assert_eq!(writer.bit_idx() % 8, 0);
    let mut reader = BitReader::new(writer.into_bits());
    assert_eq!(reader.read_uint(64).unwrap(), u64::MAX);
    assert_eq!(reader.read_uint(3).unwrap(), 5);
    assert_eq!(reader.read_usize(24).unwrap(), 1000);
    assert_eq!(reader.read_uint(5).unwrap(), 0); // padding from finish_byte
    assert_eq!(reader.read_uint(1).unwrap_err(), PcoError::InsufficientData);
}

#[test]
fn overwrite_changes_only_the_addressed_bits() {
    let mut writer = BitWriter::new();
    writer.write_uint(0xFF, 8);
    writer.write_uint(0, 16);
    writer.write_uint(0xFF, 8);
    writer.overwrite_uint(8, 0xABCD, 16);
    let mut reader = BitReader::new(writer.into_bits());
    assert_eq!(reader.read_uint(8).unwrap(), 0xFF);
    assert_eq!(reader.read_uint(16).unwrap(), 0xABCD);
    assert_eq!(reader.read_uint(8).unwrap(), 0xFF);
}
