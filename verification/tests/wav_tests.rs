use hakai_core::wav::{decode_wav, samples_read};

/// A mono 16-bit 44.1 kHz PCM WAV file holding `samples`.
fn wav_bytes(samples: &[i16]) -> Vec<u8> {
    let data_len = (samples.len() * 2) as u32;
    let mut out = Vec::new();
    out.extend_from_slice(b"RIFF");
    out.extend_from_slice(&(36 + data_len).to_le_bytes());
    out.extend_from_slice(b"WAVE");
    out.extend_from_slice(b"fmt ");
    out.extend_from_slice(&16u32.to_le_bytes());
    out.extend_from_slice(&1u16.to_le_bytes()); // PCM
    out.extend_from_slice(&1u16.to_le_bytes()); // mono
    out.extend_from_slice(&44_100u32.to_le_bytes());
    out.extend_from_slice(&(44_100u32 * 2).to_le_bytes());
    out.extend_from_slice(&2u16.to_le_bytes());
    out.extend_from_slice(&16u16.to_le_bytes());
    out.extend_from_slice(b"data");
    out.extend_from_slice(&data_len.to_le_bytes());
    for s in samples {
        out.extend_from_slice(&s.to_le_bytes());
    }
    out
}

#[test]
fn a_16_bit_wav_decodes_to_its_samples() {
    assert_eq!(decode_wav(&wav_bytes(&[1, -2, 300, i16::MIN])), Some(vec![1, -2, 300, i16::MIN]));
}

#[test]
fn an_empty_data_chunk_decodes_to_no_samples() {
    assert_eq!(decode_wav(&wav_bytes(&[])), Some(vec![]));
}

#[test]
fn bytes_that_are_not_a_wav_file_do_not_decode() {
    assert_eq!(decode_wav(b"not a sound at all"), None);
    assert_eq!(decode_wav(&[]), None);
}

#[test]
fn unreadable_samples_are_skipped() {
    assert_eq!(samples_read(&vec![Some(3), None, Some(-4), None]), vec![3, -4]);
    assert!(samples_read(&vec![None, None]).is_empty());
}
