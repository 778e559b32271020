use sockudo_ws::deflate::{
    negotiate_server_deflate, parse_deflate_offer, DeflateOffer, DEFAULT_WINDOW_BITS,
    MAX_WINDOW_BITS,
};
use sockudo_ws::deflate_stream::{DeflateDecoder, DeflateEncoder};
use sockudo_ws::{DeflateConfig, DeflateContext, DeflateWindowBits, Error, Result};

/// Deterministic high-entropy bytes, standing in for already-compressed
/// payloads (audio, video, images) that deflate cannot shrink.
fn incompressible(n: usize) -> Vec<u8> {
    let mut s: u64 = 0x2545_F491_4F6C_DD1D;
    (0..n)
        .map(|_| {
            s ^= s << 13;
            s ^= s >> 7;
            s ^= s << 17;
            (s >> 24) as u8
        })
        .collect()
}

/// One message as the protocol layer sends and receives it: a compressed
/// result travels with RSV1 set and reaches the peer's inflater, while a
/// `None` result is sent verbatim with RSV1 clear and never reaches it.
fn round_trip(
    enc: &mut DeflateContext,
    dec: &mut DeflateContext,
    msg: &[u8],
) -> Result<Vec<u8>> {
    match enc.compress(msg)? {
        Some(compressed) => dec.decompress(&compressed, 1 << 20).map(|b| b.to_vec()),
        None => Ok(msg.to_vec()),
    }
}

#[test]
fn test_undersized_compression_does_not_desync_context_takeover() {
    let config = DeflateConfig {
        server_no_context_takeover: false,
        client_no_context_takeover: false,
        compression_threshold: 16,
        ..Default::default()
    };
    let mut server = DeflateContext::server(config.clone());
    let mut client = DeflateContext::client(config);

    let text = b"{\"channel\":\"presence-room\",\"event\":\"client-typing\"}".repeat(8);

    // Warm both LZ77 windows with a message that does compress.
    let first = round_trip(&mut server, &mut client, &text).expect("first message");
    assert_eq!(first, text);

    // A message that does not shrink is sent verbatim, so the peer's window
    // never sees it. The encoder must not retain it either.
    let opaque = incompressible(4096);
    let second = round_trip(&mut server, &mut client, &opaque).expect("second message");
    assert_eq!(second, opaque);

    // Repeat the first message. With context takeover the encoder emits a
    // back-reference into its window; if that window still holds `opaque`,
    // the distance is wrong on the peer and the message decodes to garbage.
    let third = round_trip(&mut server, &mut client, &text).expect("third message decodes");
    assert_eq!(
        third, text,
        "window desynchronised after an uncompressed message"
    );
}

#[test]
fn test_compress_decompress() {
    let config = DeflateConfig::default();
    let mut ctx = DeflateContext::server(config);

    let original = b"Hello, World! This is a test message that should be compressed.";

    // Compress
    let compressed = ctx.compress(original).unwrap();
    assert!(compressed.is_some());
    let compressed = compressed.unwrap();
    assert!(compressed.len() < original.len());

    // Decompress
    let decompressed = ctx.decompress(&compressed, 1024).unwrap();
    assert_eq!(&decompressed[..], &original[..]);
}

#[test]
fn test_small_message_not_compressed() {
    let config = DeflateConfig {
        compression_threshold: 100,
        ..Default::default()
    };
    let mut ctx = DeflateContext::server(config);

    let small = b"tiny";
    let result = ctx.compress(small).unwrap();
    assert!(result.is_none());
}

#[test]
fn test_context_takeover() {
    let config = DeflateConfig {
        server_no_context_takeover: false,
        compression_threshold: 0,
        ..Default::default()
    };
    let mut ctx = DeflateContext::server(config);

    let msg = b"Hello, World! Hello, World! Hello, World!";

    // First compression
    let first = ctx.compress(msg).unwrap().unwrap();

    // Second compression should benefit from context
    let second = ctx.compress(msg).unwrap().unwrap();

    // With context takeover, second should be smaller or equal
    // (references previous data in LZ77 window)
    assert!(second.len() <= first.len());
}

#[test]
fn test_no_context_takeover() {
    let config = DeflateConfig {
        server_no_context_takeover: true,
        compression_threshold: 0,
        ..Default::default()
    };
    let mut ctx = DeflateContext::server(config);

    let msg = b"Hello, World! Hello, World! Hello, World!";

    // Both compressions should produce same output
    let first = ctx.compress(msg).unwrap().unwrap();
    let second = ctx.compress(msg).unwrap().unwrap();

    assert_eq!(first.len(), second.len());
}

#[test]
fn test_parse_deflate_offer() {
    // Simple offer
    let params = parse_deflate_offer("permessage-deflate").unwrap();
    assert!(params.is_empty());

    // With parameters
    let params = parse_deflate_offer(
        "permessage-deflate; server_no_context_takeover; server_max_window_bits=10",
    )
    .unwrap();
    assert_eq!(params.len(), 2);
    assert_eq!(params[0], ("server_no_context_takeover", None));
    assert_eq!(params[1], ("server_max_window_bits", Some("10")));

    // Not a deflate offer
    assert!(parse_deflate_offer("some-other-extension").is_none());
}

#[test]
fn test_config_from_params() {
    let params = vec![
        ("server_no_context_takeover", None),
        ("client_max_window_bits", Some("12")),
    ];

    let config = DeflateConfig::from_params(&params).unwrap();
    assert!(config.server_no_context_takeover);
    assert!(!config.client_no_context_takeover);
    assert_eq!(config.client_max_window_bits, DeflateWindowBits::Bits12);
    assert_eq!(config.server_max_window_bits, DEFAULT_WINDOW_BITS);
}

#[test]
fn config_from_params_keeps_context_takeover_directions_independent() {
    let config = DeflateConfig::from_params(&[("client_no_context_takeover", None)]).unwrap();

    assert!(!config.server_no_context_takeover);
    assert!(config.client_no_context_takeover);
}

#[test]
fn config_from_params_rejects_duplicate_parameters() {
    for params in [
        vec![
            ("server_no_context_takeover", None),
            ("server_no_context_takeover", None),
        ],
        vec![
            ("client_no_context_takeover", None),
            ("client_no_context_takeover", None),
        ],
        vec![
            ("server_max_window_bits", Some("12")),
            ("server_max_window_bits", Some("11")),
        ],
        vec![
            ("client_max_window_bits", Some("12")),
            ("client_max_window_bits", Some("11")),
        ],
    ] {
        assert!(DeflateConfig::from_params(&params).is_err());
    }
}

#[test]
fn config_from_params_rejects_valueless_server_window_and_unsupported_window() {
    assert!(DeflateConfig::from_params(&[("server_max_window_bits", None)]).is_err());
    assert!(DeflateConfig::from_params(&[("server_max_window_bits", Some("8"))]).is_err());
}

#[test]
fn config_from_params_uses_a_supported_decoder_for_client_window_eight() {
    let config = DeflateConfig::from_params(&[("client_max_window_bits", Some("8"))]).unwrap();

    assert_eq!(config.client_max_window_bits, DeflateWindowBits::Bits9);
}

#[test]
fn deflate_window_values_reject_leading_zeroes() {
    for parameter in ["server_max_window_bits", "client_max_window_bits"] {
        assert!(DeflateConfig::from_params(&[(parameter, Some("08"))]).is_err());
        assert!(
            negotiate_server_deflate(
                &format!("permessage-deflate; {parameter}=08"),
                &DeflateConfig::default(),
            )
            .is_none()
        );
    }
}

#[test]
fn test_response_header() {
    let config = DeflateConfig {
        server_no_context_takeover: true,
        server_max_window_bits: DeflateWindowBits::Bits12,
        ..Default::default()
    };

    let header = config.to_response_header();
    assert!(header.contains("permessage-deflate"));
    assert!(header.contains("server_no_context_takeover"));
    assert!(header.contains("server_max_window_bits=12"));
}

#[test]
fn server_negotiation_intersects_window_limits() {
    let policy = DeflateConfig {
        server_max_window_bits: DeflateWindowBits::Bits12,
        client_max_window_bits: DeflateWindowBits::Bits11,
        ..Default::default()
    };
    let negotiated = negotiate_server_deflate(
        "permessage-deflate; server_max_window_bits=10; client_max_window_bits=12",
        &policy,
    )
    .unwrap();

    assert_eq!(
        negotiated.config.server_max_window_bits,
        DeflateWindowBits::Bits10
    );
    assert_eq!(
        negotiated.config.client_max_window_bits,
        DeflateWindowBits::Bits11
    );
    assert_eq!(
        negotiated.to_response_header(),
        "permessage-deflate; server_max_window_bits=10; client_max_window_bits=11"
    );
}

#[test]
fn server_negotiation_requires_client_window_parameter_for_a_smaller_policy() {
    let policy = DeflateConfig {
        client_max_window_bits: DeflateWindowBits::Bits10,
        ..Default::default()
    };

    assert!(negotiate_server_deflate("permessage-deflate", &policy).is_none());
    let negotiated =
        negotiate_server_deflate("permessage-deflate; client_max_window_bits", &policy).unwrap();
    assert_eq!(
        negotiated.config.client_max_window_bits,
        DeflateWindowBits::Bits10
    );
}

#[test]
fn server_negotiation_rejects_invalid_offers_and_selects_the_first_compatible_one() {
    let offers = [
        "permessage-deflate; server_max_window_bits=8, ",
        "permessage-deflate; server_max_window_bits=12; server_max_window_bits=11, ",
        "other-extension, ",
        "permessage-deflate; server_max_window_bits=10",
    ]
    .concat();
    let negotiated = negotiate_server_deflate(&offers, &DeflateConfig::default()).unwrap();

    assert_eq!(
        negotiated.config.server_max_window_bits,
        DeflateWindowBits::Bits10
    );
}

#[test]
fn server_negotiation_applies_context_takeover_constraints() {
    let negotiated = negotiate_server_deflate(
        "permessage-deflate; server_no_context_takeover; client_no_context_takeover",
        &DeflateConfig::default(),
    )
    .unwrap();

    assert!(negotiated.config.server_no_context_takeover);
    assert!(negotiated.config.client_no_context_takeover);
}

#[test]
fn server_negotiation_does_not_emit_unoffered_client_window_parameter() {
    let negotiated =
        negotiate_server_deflate("permessage-deflate", &DeflateConfig::default()).unwrap();

    assert_eq!(negotiated.config.client_max_window_bits, MAX_WINDOW_BITS);
    assert!(
        !negotiated
            .to_response_header()
            .contains("client_max_window_bits")
    );
}

#[test]
fn server_negotiation_preserves_an_offered_server_window_of_fifteen() {
    let negotiated = negotiate_server_deflate(
        "permessage-deflate; server_max_window_bits=15",
        &DeflateConfig::default(),
    )
    .unwrap();

    assert_eq!(
        negotiated.config.server_max_window_bits,
        DeflateWindowBits::Bits15
    );
    assert_eq!(
        negotiated.to_response_header(),
        "permessage-deflate; server_max_window_bits=15"
    );
}

#[test]
fn server_negotiation_uses_a_supported_decoder_for_a_client_window_of_eight() {
    let negotiated = negotiate_server_deflate(
        "permessage-deflate; client_max_window_bits=8",
        &DeflateConfig::default(),
    )
    .unwrap();

    assert_eq!(
        negotiated.config.client_max_window_bits,
        DeflateWindowBits::Bits9
    );
    assert_eq!(
        negotiated.to_response_header(),
        "permessage-deflate; client_max_window_bits=8"
    );
}

#[test]
fn server_negotiation_rejects_an_unsupported_server_window_of_eight() {
    assert!(
        negotiate_server_deflate(
            "permessage-deflate; server_max_window_bits=8",
            &DeflateConfig::default(),
        )
        .is_none()
    );
}

#[test]
fn decompression_stops_at_the_size_limit() {
    let mut server = DeflateContext::server(DeflateConfig::default());
    let mut client = DeflateContext::client(DeflateConfig::default());
    let data = [b'z'; 5000];
    let packed = server.compress(&data).unwrap().unwrap();
    assert!(matches!(
        client.decompress(&packed, 4999),
        Err(Error::MessageTooLarge)
    ));
    let mut server = DeflateContext::server(DeflateConfig::default());
    let mut client = DeflateContext::client(DeflateConfig::default());
    let packed = server.compress(&data).unwrap().unwrap();
    assert_eq!(client.decompress(&packed, 5000).unwrap().as_ref(), &data[..]);
}

#[test]
fn short_messages_are_held_to_the_size_limit() {
    // A stored block with five bytes, without the trailer.
    let data = [
        0x00, 0x05, 0x00, 0xfa, 0xff, b'H', b'e', b'l', b'l', b'o', 0x00,
    ];
    let mut decoder = DeflateDecoder::new(DeflateWindowBits::Bits15, true);
    assert!(matches!(
        decoder.decompress(&data, 4),
        Err(Error::MessageTooLarge)
    ));
    assert_eq!(decoder.decompress(&data, 5).unwrap().as_ref(), b"Hello");
    // A message as long as the first output buffer.
    let mut encoder = DeflateEncoder::new(DeflateWindowBits::Bits15, true, 6, 0);
    let even = [b'e'; 1024];
    let packed = encoder.compress(&even).unwrap().unwrap();
    assert_eq!(decoder.decompress(&packed, 1024).unwrap().as_ref(), &even[..]);
    assert!(decoder.decompress(&packed, 1023).is_err());
}

#[test]
fn large_incompressible_messages_survive_context_takeover() {
    let config = DeflateConfig {
        server_no_context_takeover: false,
        client_no_context_takeover: false,
        ..Default::default()
    };
    let mut server = DeflateContext::server(config.clone());
    let mut client = DeflateContext::client(config);
    let text = b"the same again ".repeat(40);
    for n in [300_000, 65_536, 100_000, 999_999] {
        let opaque = incompressible(n);
        assert_eq!(
            round_trip(&mut server, &mut client, &opaque).unwrap(),
            opaque
        );
        assert_eq!(round_trip(&mut server, &mut client, &text).unwrap(), text);
    }
}

#[test]
fn every_level_and_window_round_trips() {
    let opaque = incompressible(80_000);
    let text = b"level by level ".repeat(200);
    for level in 0..10 {
        for window in [DeflateWindowBits::Bits9, DeflateWindowBits::Bits15] {
            let mut encoder = DeflateEncoder::new(window, false, level, 0);
            let mut decoder = DeflateDecoder::new(window, false);
            let mut send = |msg: &[u8]| -> bool {
                match encoder.compress(msg).unwrap() {
                    Some(packed) => {
                        assert!(packed.len() < msg.len());
                        assert_eq!(decoder.decompress(&packed, msg.len()).unwrap().as_ref(), msg);
                        true
                    }
                    None => false,
                }
            };
            for n in (0..40).map(|k| 1 + k * k * 41) {
                // What does not shrink is not used, and what does is understood
                // behind it.
                assert!(!send(&opaque[..n]));
                assert_eq!(send(&text[n % 100..]), level > 0);
                assert_eq!(send(&text), level > 0);
            }
            assert!(!send(&opaque));
            assert_eq!(send(&text), level > 0);
        }
    }
}

#[test]
fn messages_that_do_not_shrink_are_not_retained() {
    let mut encoder = DeflateEncoder::new(DeflateWindowBits::Bits15, false, 6, 0);
    assert!(encoder.compress(b"a").unwrap().is_none());
    let opaque = incompressible(2000);
    assert!(encoder.compress(&opaque).unwrap().is_none());
    // A second time it would shrink, had the first been kept.
    assert!(encoder.compress(&opaque).unwrap().is_none());
    let doubled = [&opaque[..], &opaque[..]].concat();
    let mut decoder = DeflateDecoder::new(DeflateWindowBits::Bits15, false);
    let packed = encoder.compress(&doubled).unwrap().unwrap();
    assert_eq!(
        decoder.decompress(&packed, 4000).unwrap().as_ref(),
        &doubled[..]
    );
    // This one was kept, by both sides.
    let packed = encoder.compress(&opaque).unwrap().unwrap();
    assert!(packed.len() < 100);
    assert_eq!(
        decoder.decompress(&packed, 2000).unwrap().as_ref(),
        &opaque[..]
    );
}

#[test]
fn empty_messages_are_left_alone() {
    let mut encoder = DeflateEncoder::new(DeflateWindowBits::Bits15, false, 6, 0);
    let mut decoder = DeflateDecoder::new(DeflateWindowBits::Bits15, false);
    assert!(encoder.compress(b"").unwrap().is_none());
    for _ in 0..2 {
        let text = b"not empty ".repeat(5);
        let packed = encoder.compress(&text).unwrap().unwrap();
        assert_eq!(
            decoder.decompress(&packed, 50).unwrap().as_ref(),
            &text[..]
        );
        assert!(encoder.compress(b"").unwrap().is_none());
    }
}

#[test]
fn garbage_is_no_deflate_stream() {
    let mut ctx = DeflateContext::client(DeflateConfig::default());
    assert!(matches!(
        ctx.decompress(&[0xff, 0xff, 0xff], 1000),
        Err(Error::Compression(_))
    ));
    // A block of the type that there is not, and a stored block whose two
    // lengths differ.
    for bytes in [&[0x06u8][..], &[0x00, 0x05, 0x00, 0x00, 0x00, b'x'][..]] {
        let mut decoder = DeflateDecoder::new(DeflateWindowBits::Bits15, true);
        assert!(matches!(
            decoder.decompress(bytes, 1000),
            Err(Error::Compression(_))
        ));
    }
}

#[test]
fn window_bits_convert_both_ways() {
    for bits in 9u8..=15 {
        let window = DeflateWindowBits::try_from(bits).unwrap();
        assert_eq!(u8::from(window), bits);
    }
    assert!(DeflateWindowBits::try_from(8).is_err());
    assert!(DeflateWindowBits::try_from(16).is_err());
}

#[test]
fn quoted_values_and_case_are_understood() {
    let params = parse_deflate_offer("permessage-deflate; client_max_window_bits=\"12\"").unwrap();
    assert_eq!(params[0], ("client_max_window_bits", Some("12")));
    let offer = DeflateOffer::from_params(&params).unwrap();
    assert_eq!(offer.client_max_window_bits, Some(Some(12)));
}

#[test]
fn presets_differ() {
    let low = DeflateConfig::low_memory();
    let best = DeflateConfig::best_compression();
    assert!(low.server_no_context_takeover);
    assert!(!best.server_no_context_takeover);
    assert_eq!(best.compression_level, 9);
}
