use spotify_id::{SpotifyId, SpotifyIdError, SpotifyTrackType};

fn track(id: u128) -> SpotifyId {
    SpotifyId {
        id,
        track_type: SpotifyTrackType::Track,
    }
}

#[test]
fn round_trip_base62() {
    for id in [
        0u128,
        1,
        61,
        62,
        255,
        183720692417346760753515061145995503923,
        u128::MAX,
    ] {
        let text = track(id).to_base62();
        assert_eq!(SpotifyId::from_base62(&text).unwrap().id, id);
    }
}

#[test]
fn round_trip_base16() {
    for id in [
        0u128,
        1,
        15,
        16,
        255,
        183720692417346760753515061145995503923,
        u128::MAX,
    ] {
        let text = track(id).to_base16();
        assert_eq!(SpotifyId::from_base16(&text).unwrap().id, id);
    }
}

#[test]
fn round_trip_raw() {
    for id in [0u128, 1, 256, 183720692417346760753515061145995503923, u128::MAX] {
        let raw = track(id).to_raw();
        assert_eq!(SpotifyId::from_raw(&raw).unwrap().id, id);
    }
}

#[test]
fn fixed_width() {
    for id in [0u128, 1, 62, u128::MAX] {
        assert_eq!(track(id).to_base16().len(), 32);
        assert_eq!(track(id).to_base62().len(), 22);
        assert_eq!(track(id).to_raw().len(), 16);
    }
}

#[test]
fn zero_pads_to_zero_digits() {
    assert_eq!(track(0).to_base16(), "0".repeat(32));
    assert_eq!(track(0).to_base62(), "0".repeat(22));
    assert_eq!(track(0).to_raw(), [0u8; 16]);
}

#[test]
fn known_encodings() {
    assert_eq!(track(255).to_base16(), "000000000000000000000000000000ff");
    assert_eq!(track(255).to_base62(), "0000000000000000000047");
    assert_eq!(track(61).to_base62(), "000000000000000000000Z");
    assert_eq!(track(62).to_base62(), "0000000000000000000010");
    assert_eq!(track(u128::MAX).to_base62(), "7N42dgm5tFLK9N8MT7fHC7");
    assert_eq!(track(u128::MAX).to_base16(), "ffffffffffffffffffffffffffffffff");
}

#[test]
fn known_track_id() {
    let sid = SpotifyId::from_base62("4cOdK2wGLETKBW3PvgPWqT").unwrap();
    assert_eq!(sid.id, 183720692417346760753515061145995503923);
    assert_eq!(sid.track_type, SpotifyTrackType::Track);
    assert_eq!(sid.to_base16(), "8a37517ba69f47c3aeeee164eecee933");
    assert_eq!(sid.to_base62(), "4cOdK2wGLETKBW3PvgPWqT");
    assert_eq!(
        sid.to_raw(),
        [
            138, 55, 81, 123, 166, 159, 71, 195, 174, 238, 225, 100, 238, 206, 233, 51
        ]
    );
}

#[test]
fn invalid_digit_is_rejected() {
    let bad16 = SpotifyId::from_base16("g0000000000000000000000000000000");
    assert_eq!(bad16, Err(SpotifyIdError::InvalidDigit));
    let bad62 = SpotifyId::from_base62("abc?def");
    assert_eq!(bad62, Err(SpotifyIdError::InvalidDigit));
}

#[test]
fn wrong_length_raw_is_rejected() {
    assert_eq!(
        SpotifyId::from_raw(&[0u8; 15]),
        Err(SpotifyIdError::InvalidLength)
    );
    assert_eq!(
        SpotifyId::from_raw(&[0u8; 17]),
        Err(SpotifyIdError::InvalidLength)
    );
}

#[test]
fn short_reference_is_rejected() {
    assert_eq!(
        SpotifyId::from_uri("spotify:track"),
        Err(SpotifyIdError::InvalidReference)
    );
    assert_eq!(
        SpotifyId::from_uri("spotify"),
        Err(SpotifyIdError::InvalidReference)
    );
}

#[test]
fn bad_reference_payload_is_rejected() {
    assert_eq!(
        SpotifyId::from_uri("spotify:episode:???"),
        Err(SpotifyIdError::InvalidDigit)
    );
}

#[test]
fn track_reference_parses() {
    let sid = SpotifyId::from_uri("spotify:track:4cOdK2wGLETKBW3PvgPWqT").unwrap();
    let direct = SpotifyId::from_base62("4cOdK2wGLETKBW3PvgPWqT").unwrap();
    assert_eq!(sid.track_type, SpotifyTrackType::Track);
    assert_eq!(sid.id, direct.id);
}

#[test]
fn podcast_reference_parses() {
    let episode = SpotifyId::from_uri("spotify:episode:4cOdK2wGLETKBW3PvgPWqT").unwrap();
    assert_eq!(episode.track_type, SpotifyTrackType::Podcast);
    assert_eq!(episode.id, 183720692417346760753515061145995503923);
    let show = SpotifyId::from_uri("spotify:show:0000000000000000000047").unwrap();
    assert_eq!(show.track_type, SpotifyTrackType::Podcast);
    assert_eq!(show.id, 255);
}

#[test]
fn raw_reads_big_endian() {
    let mut bytes = [0u8; 16];
    bytes[15] = 1;
    assert_eq!(SpotifyId::from_raw(&bytes).unwrap().id, 1);
    let mut high = [0u8; 16];
    high[7] = 1;
    assert_eq!(SpotifyId::from_raw(&high).unwrap().id, 1u128 << 64);
    assert_eq!(track(1u128 << 64).to_raw(), high);
}

#[test]
fn empty_text_decodes_to_zero() {
    assert_eq!(SpotifyId::from_base62("").unwrap().id, 0);
    assert_eq!(SpotifyId::from_base16("").unwrap().id, 0);
}

#[test]
fn decode_wraps_modulo_128_bits() {
    let mut long = String::from("1");
    long.push_str(&"0".repeat(32));
    assert_eq!(SpotifyId::from_base16(&long).unwrap().id, 0);
}
