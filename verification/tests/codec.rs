use midi_stream::status::StatusClass;
use midi_stream::{DecodeError, MidiCodec, MidiMessage, ParseError, RepeatedStatus, RunningStatus};
use tokio_util::bytes::BytesMut;

fn all_kinds() -> Vec<MidiMessage> {
    vec![
        MidiMessage::NoteOff(0, 60, 0x40),
        MidiMessage::NoteOn(15, 127, 0x7F),
        MidiMessage::PolyphonicKeyPressure(3, 61, 0x10),
        MidiMessage::ControlChange(4, 7, 100),
        MidiMessage::ProgramChange(5, 12),
        MidiMessage::ChannelPressure(6, 99),
        MidiMessage::PitchBendChange(7, 0x2000),
        MidiMessage::SysEx(vec![0x7E, 0x00, 0x09, 0x01]),
        MidiMessage::SysEx(vec![]),
        MidiMessage::MidiTimeCode(0x35),
        MidiMessage::SongPositionPointer(0x1234),
        MidiMessage::SongSelect(9),
        MidiMessage::Reserved(0xF4),
        MidiMessage::Reserved(0xF5),
        MidiMessage::Reserved(0xF9),
        MidiMessage::Reserved(0xFD),
        MidiMessage::TuneRequest,
        MidiMessage::TimingClock,
        MidiMessage::Start,
        MidiMessage::Continue,
        MidiMessage::Stop,
        MidiMessage::ActiveSensing,
        MidiMessage::Reset,
    ]
}

fn encode_repeated(m: &MidiMessage) -> Vec<u8> {
    let mut codec = MidiCodec::new();
    let mut buf = vec![0u8; codec.byte_size(m)];
    let n = codec.copy_to_slice(m, &mut buf);
    assert_eq!(n, buf.len());
    buf
}

#[test]
fn byte_size_counts_the_bytes_copy_to_slice_writes() {
    let mut repeated = MidiCodec::new();
    let mut running = MidiCodec::with_running_status();
    for m in all_kinds().iter().chain(all_kinds().iter()) {
        let mut buf = [0u8; 16];
        let size = repeated.byte_size(m);
        assert_eq!(repeated.copy_to_slice(m, &mut buf), size);
        let size = running.byte_size(m);
        assert_eq!(running.copy_to_slice(m, &mut buf), size);
    }
}

#[test]
fn copy_to_slice_leaves_the_rest_of_the_buffer() {
    let mut codec = MidiCodec::new();
    let mut buf = [0xAAu8; 6];
    let n = codec.copy_to_slice(&MidiMessage::NoteOn(0, 0x48, 0x7F), &mut buf);
    assert_eq!(n, 3);
    assert_eq!(buf, [0x90, 0x48, 0x7F, 0xAA, 0xAA, 0xAA]);
}

#[test]
fn exact_encodings() {
    assert_eq!(encode_repeated(&MidiMessage::NoteOff(0, 60, 0x40)), vec![0x80, 60, 0x40]);
    assert_eq!(encode_repeated(&MidiMessage::NoteOn(0x0F, 0x48, 0x7F)), vec![0x9F, 0x48, 0x7F]);
    assert_eq!(encode_repeated(&MidiMessage::ControlChange(4, 7, 100)), vec![0xB4, 7, 100]);
    assert_eq!(encode_repeated(&MidiMessage::ProgramChange(5, 12)), vec![0xC5, 12]);
    assert_eq!(encode_repeated(&MidiMessage::PitchBendChange(3, 0x2000)), vec![0xE3, 0x00, 0x40]);
    assert_eq!(encode_repeated(&MidiMessage::PitchBendChange(3, 0x3FFF)), vec![0xE3, 0x7F, 0x7F]);
    assert_eq!(encode_repeated(&MidiMessage::SongPositionPointer(0x1234)), vec![0xF2, 0x34, 0x24]);
    assert_eq!(encode_repeated(&MidiMessage::SysEx(vec![1, 2])), vec![0xF0, 1, 2, 0xF7]);
    assert_eq!(encode_repeated(&MidiMessage::Reserved(0xF9)), vec![0xF9]);
    assert_eq!(encode_repeated(&MidiMessage::Reset), vec![0xFF]);
}

#[test]
fn decode_combines_fourteen_bit_values() {
    let mut codec = MidiCodec::new();
    assert_eq!(
        codec.from_bytes(&[0xE3, 0x7F, 0x7F]).unwrap(),
        (MidiMessage::PitchBendChange(3, 0x3FFF), 3)
    );
    assert_eq!(
        codec.from_bytes(&[0xE0, 0x00, 0x40]).unwrap(),
        (MidiMessage::PitchBendChange(0, 0x2000), 3)
    );
    assert_eq!(
        codec.from_bytes(&[0xF2, 0x34, 0x24]).unwrap(),
        (MidiMessage::SongPositionPointer(0x1234), 3)
    );
}

#[test]
fn decode_reads_the_channel_from_the_status_byte() {
    let mut codec = MidiCodec::new();
    assert_eq!(
        codec.from_bytes(&[0x95, 0x10, 0x20, 0x00]).unwrap(),
        (MidiMessage::NoteOn(5, 0x10, 0x20), 3)
    );
    assert_eq!(
        codec.from_bytes(&[0xDC, 0x11]).unwrap(),
        (MidiMessage::ChannelPressure(12, 0x11), 2)
    );
}

#[test]
fn decode_keeps_the_sysex_data() {
    let mut codec = MidiCodec::new();
    assert_eq!(
        codec.from_bytes(&[0xF0, 0x01, 0x02, 0x7F, 0xF7, 0x90]).unwrap(),
        (MidiMessage::SysEx(vec![0x01, 0x02, 0x7F]), 5)
    );
}

#[test]
fn every_kind_of_message_comes_back() {
    for m in all_kinds() {
        let mut bytes = encode_repeated(&m);
        let n = bytes.len();
        bytes.extend_from_slice(&[0x90, 0x01]);
        let mut codec = MidiCodec::new();
        assert_eq!(codec.from_bytes(&bytes).unwrap(), (m.clone(), n));
    }
}

#[test]
fn every_proper_prefix_asks_for_more_bytes() {
    for m in all_kinds() {
        let bytes = encode_repeated(&m);
        for k in 0..bytes.len() {
            let mut codec = MidiCodec::new();
            let err = codec.from_bytes(&bytes[..k]).unwrap_err();
            assert!(err.is_incomplete(), "{:?} on {:?}", err, &bytes[..k]);
        }
    }
}

#[test]
fn running_status_prefix_then_whole_message() {
    let mut writer = MidiCodec::with_running_status();
    let mut reader = MidiCodec::with_running_status();
    let mut stream = Vec::new();
    for m in all_kinds() {
        let mut buf = vec![0u8; writer.byte_size(&m)];
        writer.copy_to_slice(&m, &mut buf);
        stream.push(buf);
    }
    for (m, bytes) in all_kinds().into_iter().zip(stream) {
        for k in 0..bytes.len() {
            assert!(reader.from_bytes(&bytes[..k]).unwrap_err().is_incomplete());
        }
        assert_eq!(reader.from_bytes(&bytes).unwrap(), (m, bytes.len()));
    }
}

#[test]
fn decode_errors() {
    assert_eq!(MidiCodec::new().from_bytes(&[]), Err(ParseError::NoBytes));
    assert_eq!(MidiCodec::with_running_status().from_bytes(&[]), Err(ParseError::NoBytes));
    assert_eq!(
        MidiCodec::with_running_status().from_bytes(&[0x48, 0x7F]),
        Err(ParseError::UnexpectedDataByte)
    );
    assert_eq!(MidiCodec::new().from_bytes(&[0x90, 0x48]), Err(ParseError::NotEnoughBytes));
    assert_eq!(MidiCodec::new().from_bytes(&[0xC0]), Err(ParseError::NotEnoughBytes));
    assert_eq!(
        MidiCodec::new().from_bytes(&[0xF0, 0x01, 0x02]),
        Err(ParseError::NoSysExEndByte)
    );
    assert_eq!(
        MidiCodec::new().from_bytes(&[0x90, 0x80, 0x00]),
        Err(ParseError::DataByteOutOfRange)
    );
    assert_eq!(
        MidiCodec::new().from_bytes(&[0x90, 0x00, 0xFF]),
        Err(ParseError::DataByteOutOfRange)
    );
    assert_eq!(
        MidiCodec::new().from_bytes(&[0xF0, 0x01, 0x81, 0xF7]),
        Err(ParseError::DataByteOutOfRange)
    );
    assert_eq!(
        MidiCodec::new().from_bytes(&[0xF7]),
        Err(ParseError::UnexpectedEndSysExByte)
    );
}

#[test]
fn incomplete_errors() {
    assert!(ParseError::NoBytes.is_incomplete());
    assert!(ParseError::NotEnoughBytes.is_incomplete());
    assert!(ParseError::NoSysExEndByte.is_incomplete());
    assert!(!ParseError::UnexpectedEndSysExByte.is_incomplete());
    assert!(!ParseError::DataByteOutOfRange.is_incomplete());
    assert!(!ParseError::UnexpectedDataByte.is_incomplete());
}

#[test]
fn running_status_survives_realtime_and_ends_at_system_messages() {
    let mut codec = MidiCodec::with_running_status();
    let mut buf = BytesMut::new();
    for m in [
        MidiMessage::NoteOn(0, 0x48, 0x7F),
        MidiMessage::TimingClock,
        MidiMessage::NoteOn(0, 0x4A, 0x7F),
        MidiMessage::SongSelect(1),
        MidiMessage::NoteOn(0, 0x4C, 0x7F),
        MidiMessage::NoteOn(1, 0x4C, 0x7F),
    ] {
        codec.encode(m, &mut buf).unwrap();
    }
    assert_eq!(
        hex::encode_upper(buf),
        "90487FF84A7FF301904C7F914C7F"
    );
}

#[test]
fn running_status_decoder_follows_the_same_rules() {
    let mut codec = MidiCodec::with_running_status();
    let bytes = [0x90, 0x48, 0x7F, 0xF8, 0x4A, 0x7F, 0xF3, 0x01, 0x4C];
    assert_eq!(codec.from_bytes(&bytes[0..]).unwrap(), (MidiMessage::NoteOn(0, 0x48, 0x7F), 3));
    assert_eq!(codec.from_bytes(&bytes[3..]).unwrap(), (MidiMessage::TimingClock, 1));
    assert_eq!(codec.from_bytes(&bytes[4..]).unwrap(), (MidiMessage::NoteOn(0, 0x4A, 0x7F), 2));
    assert_eq!(codec.from_bytes(&bytes[6..]).unwrap(), (MidiMessage::SongSelect(1), 2));
    assert_eq!(codec.from_bytes(&bytes[8..]), Err(ParseError::UnexpectedDataByte));
}

#[test]
fn decode_keeps_incomplete_bytes_and_reports_other_errors() {
    let mut codec = MidiCodec::new();
    let mut buf = BytesMut::from(&[0x90u8, 0x48][..]);
    assert!(codec.decode(&mut buf).unwrap().is_none());
    assert_eq!(&buf[..], &[0x90, 0x48]);

    let mut buf = BytesMut::from(&[0xF7u8, 0x00][..]);
    match codec.decode(&mut buf) {
        Err(DecodeError::Parser(e)) => assert_eq!(e, ParseError::UnexpectedEndSysExByte),
        other => panic!("unexpected {:?}", other),
    }
    assert_eq!(&buf[..], &[0xF7, 0x00]);

    let mut buf = BytesMut::from(&[0xC1u8, 0x05, 0xFE][..]);
    assert_eq!(codec.decode(&mut buf).unwrap(), Some(MidiMessage::ProgramChange(1, 5)));
    assert_eq!(&buf[..], &[0xFE]);
}

#[test]
fn encode_appends_to_the_buffer() {
    let mut codec = MidiCodec::new();
    let mut buf = BytesMut::from(&[0x01u8, 0x02][..]);
    codec.encode(MidiMessage::ChannelPressure(2, 0x33), &mut buf).unwrap();
    assert_eq!(&buf[..], &[0x01, 0x02, 0xD2, 0x33]);
}

#[test]
fn status_classes() {
    assert_eq!(StatusClass::try_from(0x00u8), Err(ParseError::UnexpectedDataByte));
    assert_eq!(StatusClass::try_from(0x7Fu8), Err(ParseError::UnexpectedDataByte));
    assert_eq!(StatusClass::try_from(0x80u8), Ok(StatusClass::Voice));
    assert_eq!(StatusClass::try_from(0xEFu8), Ok(StatusClass::Voice));
    assert_eq!(StatusClass::try_from(0xF0u8), Ok(StatusClass::System));
    assert_eq!(StatusClass::try_from(0xF7u8), Ok(StatusClass::System));
    assert_eq!(StatusClass::try_from(0xF8u8), Ok(StatusClass::RealTime));
    assert_eq!(StatusClass::try_from(0xFFu8), Ok(StatusClass::RealTime));
}

#[test]
fn defaults_match_the_constructors() {
    let mut a: MidiCodec<RepeatedStatus> = Default::default();
    let mut b: MidiCodec<RunningStatus> = Default::default();
    let m = MidiMessage::NoteOn(0, 1, 2);
    let mut buf = [0u8; 3];
    assert_eq!(a.copy_to_slice(&m, &mut buf), 3);
    assert_eq!(b.copy_to_slice(&m, &mut buf), 3);
    assert_eq!(b.copy_to_slice(&m, &mut buf), 2);
}

#[test]
fn repeated_status_refuses_a_data_byte_for_a_status() {
    assert_eq!(
        MidiCodec::new().from_bytes(&[0x48, 0x7F]),
        Err(ParseError::UnexpectedDataByte)
    );
    let mut codec = MidiCodec::new();
    let mut buf = BytesMut::from(&[0x48u8, 0x90, 0x48, 0x7F][..]);
    match codec.decode(&mut buf) {
        Err(DecodeError::Parser(e)) => assert_eq!(e, ParseError::UnexpectedDataByte),
        other => panic!("unexpected {:?}", other),
    }
    assert_eq!(&buf[..], &[0x48, 0x90, 0x48, 0x7F]);
}

fn decode_all<S: midi_stream::MidiStatusCodec>(
    codec: &mut MidiCodec<S>,
    chunks: &[&[u8]],
) -> (Vec<MidiMessage>, usize) {
    let mut buf = BytesMut::new();
    let mut messages = Vec::new();
    for chunk in chunks {
        buf.extend_from_slice(chunk);
        while let Some(m) = codec.decode(&mut buf).unwrap() {
            messages.push(m);
        }
    }
    (messages, buf.len())
}

#[test]
fn chunks_of_every_size_decode_like_the_whole_stream() {
    let repeated = hex::decode("90487FF001234567F7904F7F90537F80530091547FFF91587F").unwrap();
    let running = hex::decode("90487FF001234567F7904F7F537F80530091547FFF587F").unwrap();
    let (whole_repeated, left) = decode_all(&mut MidiCodec::new(), &[&repeated]);
    assert_eq!(left, 0);
    let (whole_running, left) = decode_all(&mut MidiCodec::with_running_status(), &[&running]);
    assert_eq!(left, 0);
    assert_eq!(whole_repeated, whole_running);
    for size in 1..running.len() {
        let chunks: Vec<&[u8]> = repeated.chunks(size).collect();
        assert_eq!(decode_all(&mut MidiCodec::new(), &chunks), (whole_repeated.clone(), 0));
        let chunks: Vec<&[u8]> = running.chunks(size).collect();
        assert_eq!(
            decode_all(&mut MidiCodec::with_running_status(), &chunks),
            (whole_running.clone(), 0)
        );
    }
}

#[test]
fn decoded_lengths_add_up_to_the_stream() {
    let mut writer = MidiCodec::with_running_status();
    let mut stream = BytesMut::new();
    for m in all_kinds() {
        writer.encode(m, &mut stream).unwrap();
    }
    let bytes = stream.to_vec();
    let mut reader = MidiCodec::with_running_status();
    let mut at = 0;
    let mut messages = Vec::new();
    while at < bytes.len() {
        let (m, n) = reader.from_bytes(&bytes[at..]).unwrap();
        assert!(n >= 1);
        messages.push(m);
        at += n;
    }
    assert_eq!(at, bytes.len());
    assert_eq!(messages, all_kinds());
}

#[test]
fn decoding_reads_no_byte_past_the_message() {
    let mut a = MidiCodec::new();
    let mut b = MidiCodec::new();
    assert_eq!(
        a.from_bytes(&[0xB2, 0x07, 0x64, 0x00]).unwrap(),
        b.from_bytes(&[0xB2, 0x07, 0x64, 0xFF, 0x12]).unwrap()
    );
}
