use tronomic::artnet::{ArtnetConnection, OutputFrame, check_send, decode_frame, encode_frame,
    net_of, next_sequence, sub_uni_of};
use tronomic::error::NetworkError;

fn sample_data(n: usize) -> Vec<u8> {
    (0..n).map(|i| (i % 256) as u8).collect()
}

#[test]
fn frame_round_trip_512_bytes() {
    let data = sample_data(512);
    let frame = OutputFrame { sequence: 7, physical: 1, sub_uni: 3, net: 2, data: data.clone() };
    let bytes = encode_frame(&frame);
    assert_eq!(bytes.len(), 18 + 512);
    let back = decode_frame(&bytes).unwrap();
    assert_eq!(back.sequence, 7);
    assert_eq!(back.physical, 1);
    assert_eq!(back.sub_uni, 3);
    assert_eq!(back.net, 2);
    assert_eq!(back.data, data);
}

#[test]
fn frame_layout_is_artdmx() {
    let frame = OutputFrame { sequence: 0, physical: 0, sub_uni: 1, net: 0, data: vec![9, 8] };
    let bytes = encode_frame(&frame);
    assert_eq!(&bytes[0..8], b"Art-Net\0");
    assert_eq!(&bytes[8..10], &[0x00, 0x50]); // opcode, little-endian
    assert_eq!(&bytes[10..12], &[0x00, 14]); // protocol version, big-endian
    assert_eq!(bytes[14], 1); // sub-uni
    assert_eq!(bytes[15], 0); // net
    assert_eq!(&bytes[16..18], &[0, 2]); // length, big-endian
    assert_eq!(&bytes[18..], &[9, 8]);
}

#[test]
fn encoding_matches_the_reference_implementation() {
    let data = sample_data(512);
    let cmd = artnet_protocol::ArtCommand::Output(artnet_protocol::Output {
        data: data.clone().into(),
        ..artnet_protocol::Output::default()
    });
    let theirs = cmd.write_to_buffer().unwrap();
    // the reference default port address is 1: sub-uni 1, net 0
    let frame = OutputFrame { sequence: 0, physical: 0, sub_uni: 1, net: 0, data: data.clone() };
    let ours = encode_frame(&frame);
    assert_eq!(ours, theirs);
    // and our decoder reads the reference bytes back
    let decoded = decode_frame(&theirs).unwrap();
    assert_eq!(decoded.data, data);
}

#[test]
fn decode_rejects_malformed_frames() {
    assert_eq!(decode_frame(&vec![0; 10]).unwrap_err(), NetworkError::DecodeFailure);
    let mut bad_sig = encode_frame(&OutputFrame {
        sequence: 0,
        physical: 0,
        sub_uni: 0,
        net: 0,
        data: vec![1, 2],
    });
    bad_sig[0] = b'B';
    assert_eq!(decode_frame(&bad_sig).unwrap_err(), NetworkError::DecodeFailure);
    let mut bad_len = encode_frame(&OutputFrame {
        sequence: 0,
        physical: 0,
        sub_uni: 0,
        net: 0,
        data: vec![1, 2],
    });
    bad_len[17] = 3;
    assert_eq!(decode_frame(&bad_len).unwrap_err(), NetworkError::DecodeFailure);
}

#[test]
fn universe_id_maps_to_port_address() {
    assert_eq!(sub_uni_of(0), 0);
    assert_eq!(net_of(0), 0);
    assert_eq!(sub_uni_of(258), 2);
    assert_eq!(net_of(258), 1);
    assert_eq!(sub_uni_of(255), 255);
    assert_eq!(net_of(255), 0);
}

#[test]
fn sequence_wraps() {
    assert_eq!(next_sequence(0), 1);
    assert_eq!(next_sequence(254), 255);
    assert_eq!(next_sequence(255), 0);
}

#[test]
fn short_send_is_partial() {
    assert!(check_send(20, 20).is_ok());
    assert_eq!(check_send(19, 20).unwrap_err(), NetworkError::PartialSend);
}

#[test]
fn unestablished_connection_refuses_to_send() {
    let mut con = ArtnetConnection::new("127.0.0.1:6454".to_string());
    let data = sample_data(512);
    assert_eq!(con.frame_for(0, 0, &data).unwrap_err(), NetworkError::NotEstablished);
    con.mark_established();
    let frame = con.frame_for(1, 9, &data).unwrap();
    let decoded = decode_frame(&frame).unwrap();
    assert_eq!(decoded.sequence, 9);
    assert_eq!(decoded.sub_uni, 1);
    assert_eq!(decoded.data, data);
}
