use sockudo_ws::config::Http3Config;
use sockudo_ws::http2::{RecvBuffer, SendCredit};
use sockudo_ws::http3::{
    client_endpoint_settings, quic_endpoint_config, quic_transport_config,
    server_endpoint_settings, validate_config, DataWrite, Http3Stream,
    SendCall, SendPhase, SendStep, WriteEvent, WriteVerdict, VARINT_LIMIT,
};

/// A send side whose writes end once it is ready.
struct HeldSend {
    phase: SendPhase,
    ready: bool,
    data: Vec<u8>,
    output: Vec<u8>,
    finish_calls: usize,
}

impl HeldSend {
    fn new() -> Self {
        HeldSend {
            phase: SendPhase::Ready,
            ready: false,
            data: Vec::new(),
            output: Vec::new(),
            finish_calls: 0,
        }
    }

    /// What a caller is told: `None` while it has to wait.
    fn call(&mut self, call: SendCall, bytes: &[u8]) -> Option<Result<usize, &'static str>> {
        let mut step = self.phase.on_call(call);
        loop {
            match step {
                SendStep::Accept => {
                    self.data = bytes.to_vec();
                    return Some(Ok(bytes.len()));
                }
                SendStep::Finish => {
                    self.finish_calls += 1;
                    step = SendStep::Poll;
                }
                SendStep::Poll => {
                    if !self.ready {
                        return None;
                    }
                    if self.phase == SendPhase::Writing {
                        let data = std::mem::take(&mut self.data);
                        self.output.extend_from_slice(&data);
                    }
                    step = self.phase.on_complete(call, true);
                }
                SendStep::Again => step = self.phase.on_call(call),
                SendStep::Done => return Some(Ok(0)),
                SendStep::Fail => return Some(Err("failed")),
                SendStep::Broken => return Some(Err("broken pipe")),
            }
        }
    }
}

#[test]
fn cancelled_pending_write_does_not_report_old_bytes_for_new_buffer() {
    let mut writer = HeldSend::new();

    assert_eq!(writer.call(SendCall::Write, b"first"), Some(Ok(5)));
    assert_eq!(writer.call(SendCall::Flush, b""), None);
    assert_eq!(writer.call(SendCall::Write, b"cancelled"), None);
    writer.ready = true;
    assert_eq!(writer.call(SendCall::Write, b"x"), Some(Ok(1)));
    assert_eq!(writer.call(SendCall::Flush, b""), Some(Ok(0)));
    assert_eq!(&writer.output, b"firstx");
}

#[test]
fn pending_shutdown_future_is_retained_and_completion_is_idempotent() {
    let mut writer = HeldSend::new();

    assert_eq!(writer.call(SendCall::Shutdown, b""), None);
    assert_eq!(writer.finish_calls, 1);
    assert_eq!(writer.call(SendCall::Shutdown, b""), None);
    assert_eq!(writer.finish_calls, 1);

    writer.ready = true;
    assert_eq!(writer.call(SendCall::Shutdown, b""), Some(Ok(0)));
    assert_eq!(writer.call(SendCall::Shutdown, b""), Some(Ok(0)));
    assert_eq!(writer.finish_calls, 1);
    assert_eq!(
        writer.call(SendCall::Write, b"after shutdown"),
        Some(Err("broken pipe"))
    );
}

#[test]
fn failed_write_is_reported_once() {
    let mut phase = SendPhase::Ready;
    assert_eq!(phase.on_call(SendCall::Write), SendStep::Accept);
    assert_eq!(phase.on_call(SendCall::Flush), SendStep::Poll);
    assert_eq!(phase.on_complete(SendCall::Flush, false), SendStep::Fail);
    assert_eq!(phase, SendPhase::Ready);
}

#[test]
fn cancelled_data_write_ends_the_stream() {
    let mut write = DataWrite::Idle;
    assert_eq!(write.on_event(WriteEvent::Begin), WriteVerdict::Proceed);
    assert_eq!(write.on_event(WriteEvent::End), WriteVerdict::Proceed);
    assert_eq!(write.on_event(WriteEvent::Drop), WriteVerdict::Proceed);
    assert_eq!(write.on_event(WriteEvent::Begin), WriteVerdict::Proceed);
    assert_eq!(write.on_event(WriteEvent::Drop), WriteVerdict::StopStream);
    assert_eq!(write, DataWrite::Cancelled);
    for event in [WriteEvent::Use, WriteEvent::Begin] {
        assert_eq!(write.on_event(event), WriteVerdict::Refuse);
    }
    assert_eq!(write.on_event(WriteEvent::Drop), WriteVerdict::Proceed);
}

#[test]
fn received_bytes_keep_their_order() {
    let mut recv = RecvBuffer::new();
    let mut out = [0u8; 4];
    assert_eq!(recv.fill(&mut out), None);
    assert_eq!(recv.receive(b"abcdef", &mut out), 4);
    assert_eq!(&out, b"abcd");
    assert_eq!(recv.len(), 2);
    assert!(recv.can_keep(10));
    recv.append(b"gh");
    assert_eq!(recv.fill(&mut out), Some(4));
    assert_eq!(&out, b"efgh");
    assert!(recv.is_empty());
    recv.finish();
    assert!(recv.is_eof());
    assert_eq!(recv.fill(&mut out), Some(0));
}

#[test]
fn credit_limits_what_is_sent() {
    let mut credit = SendCredit::new();
    // Nothing is available yet: capacity is reserved and awaited.
    let reserved = credit.reserve(100, 0);
    assert_eq!(reserved, Some(100));
    credit.wait(100);
    assert_eq!(credit.granted(100, 30), 30);
    assert_eq!(credit.granted(20, 30), 20);
    credit.sent();
}

#[test]
fn quic_limits_are_kept() {
    let good = Http3Config::default();
    assert!(validate_config(&good).is_ok());
    let transport = quic_transport_config(&good).unwrap();
    assert_eq!(transport.max_idle_timeout_ms, good.max_idle_timeout_ms);
    assert_eq!(
        transport.stream_receive_window,
        good.initial_stream_window_size
    );

    let early = Http3Config {
        enable_0rtt: true,
        ..good
    };
    assert_eq!(
        quic_transport_config(&early).err().unwrap().message(),
        validate_config(&early).err().unwrap().message()
    );
    let long = Http3Config {
        max_idle_timeout_ms: VARINT_LIMIT,
        ..good
    };
    assert!(quic_transport_config(&long).is_err());
    assert!(
        quic_transport_config(&Http3Config {
            max_idle_timeout_ms: VARINT_LIMIT - 1,
            ..good
        })
        .is_ok()
    );
    let wide = Http3Config {
        initial_stream_window_size: VARINT_LIMIT,
        ..good
    };
    assert!(quic_transport_config(&wide).is_err());

    for (size, fits) in [(1199, false), (1200, true), (65527, true), (65528, false)] {
        let config = Http3Config {
            max_udp_payload_size: size,
            ..good
        };
        assert_eq!(quic_endpoint_config(&config).is_ok(), fits, "{size}");
    }
}

#[test]
fn endpoints_are_made_of_what_quic_takes() {
    let good = Http3Config::default();
    let settings = client_endpoint_settings(&good).unwrap();
    assert_eq!(settings.transport, quic_transport_config(&good).unwrap());
    assert_eq!(settings.max_udp_payload_size, good.max_udp_payload_size);
    assert_eq!(server_endpoint_settings(&good).unwrap(), settings);

    let disabled = Http3Config {
        enable_connect_protocol: false,
        enable_0rtt: true,
        ..good
    };
    assert!(matches!(
        client_endpoint_settings(&disabled),
        Err(sockudo_ws::Error::ExtendedConnectNotSupported)
    ));
    assert_eq!(
        server_endpoint_settings(&disabled).err().unwrap().message(),
        validate_config(&disabled).err().unwrap().message()
    );
    let small = Http3Config {
        max_udp_payload_size: 1000,
        ..good
    };
    assert_eq!(
        client_endpoint_settings(&small).err().unwrap().message(),
        quic_endpoint_config(&small).err().unwrap().message()
    );
}

#[test]
fn reset_stream_has_ended() {
    let mut stream = Http3Stream::new();
    let mut out = [0u8; 2];
    assert!(!stream.is_recv_finished());
    assert_eq!(stream.recv_buf_len(), 0);
    assert_eq!(stream.fill(&mut out), None);
    stream.reset();
    assert!(stream.is_recv_finished());
    assert_eq!(stream.fill(&mut out), Some(0));
}
