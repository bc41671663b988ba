use whisper_proxy::frame::{
    frame_header, parse_header, push_frame, FRAME_LOG, FRAME_MAGIC, FRAME_READY, FRAME_SEGMENT_TEXT, HEADER_LEN,
};
use whisper_proxy::ipc::{build_init_response, INIT_LOG_LINES};
use whisper_proxy::wav::make_wav_f32_mono_16k;

fn read_stream(mut bytes: &[u8]) -> Vec<(u32, Vec<u8>)> {
    let mut frames = Vec::new();
    while !bytes.is_empty() {
        let header = match parse_header(&bytes[..HEADER_LEN]) {
            Ok(h) => h,
            Err(magic) => panic!("bad magic {magic:x}"),
        };
        let end = HEADER_LEN + header.body_len as usize;
        frames.push((header.code, bytes[HEADER_LEN..end].to_vec()));
        bytes = &bytes[end..];
    }
    frames
}

#[test]
fn a_header_is_magic_code_and_length() {
    assert_eq!(frame_header(0x20001, 3), [0x11, 0x11, 0x11, 0x11, 1, 0, 2, 0, 3, 0, 0, 0]);
}

#[test]
fn a_frame_is_its_header_and_its_body() {
    let mut out: Vec<u8> = vec![9];
    push_frame(&mut out, FRAME_SEGMENT_TEXT, b"ab\0");
    assert_eq!(out, [9, 0x11, 0x11, 0x11, 0x11, 1, 0, 2, 0, 3, 0, 0, 0, b'a', b'b', 0]);
}

#[test]
fn a_header_is_read_back() {
    match parse_header(&frame_header(0x22, 4096)) {
        Ok(h) => {
            assert_eq!(h.code, 0x22);
            assert_eq!(h.body_len, 4096);
        }
        Err(_) => unreachable!(),
    }
}

#[test]
fn another_magic_number_is_refused() {
    let mut header = frame_header(0x22, 0);
    header[0] = 0x12;
    match parse_header(&header) {
        Ok(_) => unreachable!(),
        Err(magic) => assert_eq!(magic, 0x11111112),
    }
    assert_eq!(FRAME_MAGIC, 0x11111111);
}

#[test]
fn a_stream_of_frames_is_read_back() {
    let mut out: Vec<u8> = Vec::new();
    push_frame(&mut out, 1, b"");
    push_frame(&mut out, 2, b"two");
    push_frame(&mut out, 3, &[0x11, 0x11, 0x11, 0x11]);
    assert_eq!(
        read_stream(&out),
        vec![(1, vec![]), (2, b"two".to_vec()), (3, vec![0x11, 0x11, 0x11, 0x11])]
    );
}

#[test]
fn the_answer_to_load_model_is_the_log_and_ready() {
    let frames = read_stream(&build_init_response());
    assert_eq!(frames.len(), 36);
    for i in 0..35 {
        let mut body = INIT_LOG_LINES[i].as_bytes().to_vec();
        body.push(b'\n');
        body.push(0);
        assert_eq!(frames[i], (FRAME_LOG, body));
    }
    assert_eq!(frames[35], (FRAME_READY, vec![0]));
    assert_eq!(
        frames[0].1,
        b"whisper_init_from_file_with_params_no_state: loading model from '<remote API>'\n\0"
    );
    assert_eq!(frames[34].1, b"whisper_init_state: compute buffer (decode) =   96.83 MB\n\0");
}

#[test]
fn a_wav_file_holds_its_samples() {
    let wav = make_wav_f32_mono_16k(&[1, 2, 3, 4, 5, 6, 7, 8]);
    assert_eq!(wav.len(), 52);
    assert_eq!(&wav[0..4], b"RIFF");
    assert_eq!(&wav[4..8], &44u32.to_le_bytes());
    assert_eq!(&wav[8..16], b"WAVEfmt ");
    assert_eq!(&wav[16..20], &16u32.to_le_bytes());
    assert_eq!(&wav[20..22], &3u16.to_le_bytes());
    assert_eq!(&wav[22..24], &1u16.to_le_bytes());
    assert_eq!(&wav[24..28], &16000u32.to_le_bytes());
    assert_eq!(&wav[28..32], &64000u32.to_le_bytes());
    assert_eq!(&wav[32..34], &4u16.to_le_bytes());
    assert_eq!(&wav[34..36], &32u16.to_le_bytes());
    assert_eq!(&wav[36..40], b"data");
    assert_eq!(&wav[40..44], &8u32.to_le_bytes());
    assert_eq!(&wav[44..], &[1, 2, 3, 4, 5, 6, 7, 8]);
}

#[test]
fn a_wav_file_without_samples_is_its_header() {
    let wav = make_wav_f32_mono_16k(&[]);
    assert_eq!(wav.len(), 44);
    assert_eq!(&wav[4..8], &36u32.to_le_bytes());
    assert_eq!(&wav[40..44], &0u32.to_le_bytes());
}
