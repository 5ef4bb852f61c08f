use oort_ai::class::Class;
use oort_ai::radio::{ReceiveToken, RadioManager, SecureRadio};

fn radio(secret: u32, offset: usize) -> SecureRadio {
    SecureRadio::new(secret, offset)
}

#[test]
fn radio_test_channel_for_tick_in_range() {
    let radio = radio(12345, 0);
    for tick in 0..1000 {
        let channel = radio.channel_for_tick(tick);
        assert!(channel < 10, "Channel {} should be in 0..10", channel);
    }
}

#[test]
fn radio_test_frequency_hopping_determinism() {
    let secret = 424242;
    let radio1 = radio(secret, 0);
    let radio2 = radio(secret, 0);

    for tick in 0..100 {
        assert_eq!(
            radio1.channel_for_tick(tick),
            radio2.channel_for_tick(tick),
            "Same secret and tick must produce same channel"
        );
    }
}

#[test]
fn radio_test_frequency_hopping_variance() {
    let radio = radio(1337, 0);
    let mut different_channels = false;
    let first_channel = radio.channel_for_tick(0);
    for tick in 1..20 {
        if radio.channel_for_tick(tick) != first_channel {
            different_channels = true;
            break;
        }
    }
    assert!(different_channels, "Channels should vary over ticks");
}

#[test]
fn radio_test_channel_offset() {
    let secret = 99999;
    let radio0 = radio(secret, 0);
    let radio3 = radio(secret, 3);

    for tick in 0..100 {
        let ch0 = radio0.channel_for_tick(tick);
        let ch3 = radio3.channel_for_tick(tick);
        assert_eq!(ch3, (ch0 + 3) % 10);
    }
}

#[test]
fn radio_test_hmac_sign_and_verify_success() {
    let radio = radio(9876543, 0);
    let payload = [7u8; 30];
    let tick = 120;

    let message = radio.format_message(payload, tick);
    assert_eq!(radio.parse_message(message, tick), Some(payload));
}

#[test]
fn radio_test_hmac_verify_fails_with_wrong_secret() {
    let radio1 = radio(9876543, 0);
    let radio2 = radio(1111111, 0);
    let payload = [7u8; 30];
    let tick = 120;

    let message = radio1.format_message(payload, tick);
    assert_eq!(radio2.parse_message(message, tick), None);
}

#[test]
fn radio_test_hmac_verify_fails_with_wrong_tick() {
    let radio = radio(9876543, 0);
    let payload = [7u8; 30];
    let message = radio.format_message(payload, 120);
    assert_eq!(radio.parse_message(message, 121), None);
}

#[test]
fn radio_test_hmac_verify_fails_with_modified_payload() {
    let radio = radio(9876543, 0);
    let payload = [7u8; 30];
    let tick = 120;

    let mut message = radio.format_message(payload, tick);
    message[5] ^= 0xFF;
    assert_eq!(radio.parse_message(message, tick), None);
}

#[test]
fn radio_test_hmac_verify_fails_with_modified_hmac() {
    let radio = radio(9876543, 0);
    let payload = [7u8; 30];
    let tick = 120;

    let mut message = radio.format_message(payload, tick);
    message[31] ^= 0x01;
    assert_eq!(radio.parse_message(message, tick), None);
}

#[test]
fn radio_test_test_channel_for_tick_in_range() {
    let radio = radio(12345, 0);
    for tick in 0..1000 {
        let channel = radio.channel_for_tick(tick);
        assert!(channel < 10, "Channel {} should be in 0..10", channel);
    }
}

#[test]
fn radio_test_test_frequency_hopping_determinism() {
    let secret = 424242;
    let radio1 = radio(secret, 0);
    let radio2 = radio(secret, 0);

    for tick in 0..100 {
        assert_eq!(
            radio1.channel_for_tick(tick),
            radio2.channel_for_tick(tick),
            "Same secret and tick must produce same channel"
        );
    }
}

#[test]
fn radio_test_test_frequency_hopping_variance() {
    let radio = radio(1337, 0);
    let mut different_channels = false;
    let first_channel = radio.channel_for_tick(0);
    for tick in 1..20 {
        if radio.channel_for_tick(tick) != first_channel {
            different_channels = true;
            break;
        }
    }
    assert!(different_channels, "Channels should vary over ticks");
}

#[test]
fn radio_test_test_channel_offset() {
    let secret = 99999;
    let radio0 = radio(secret, 0);
    let radio3 = radio(secret, 3);

    for tick in 0..100 {
        let ch0 = radio0.channel_for_tick(tick);
        let ch3 = radio3.channel_for_tick(tick);
        assert_eq!(ch3, (ch0 + 3) % 10);
    }
}

#[test]
fn radio_test_test_hmac_sign_and_verify_success() {
    let radio = radio(9876543, 0);
    let payload = [7u8; 30];
    let tick = 120;

    let message = radio.format_message(payload, tick);
    assert_eq!(radio.parse_message(message, tick), Some(payload));
}

#[test]
fn radio_test_test_hmac_verify_fails_with_wrong_secret() {
    let radio1 = radio(9876543, 0);
    let radio2 = radio(1111111, 0);
    let payload = [7u8; 30];
    let tick = 120;

    let message = radio1.format_message(payload, tick);
    assert_eq!(radio2.parse_message(message, tick), None);
}

#[test]
fn radio_test_test_hmac_verify_fails_with_wrong_tick() {
    let radio = radio(9876543, 0);
    let payload = [7u8; 30];
    let message = radio.format_message(payload, 120);
    assert_eq!(radio.parse_message(message, 121), None);
}

#[test]
fn radio_test_test_hmac_verify_fails_with_modified_payload() {
    let radio = radio(9876543, 0);
    let payload = [7u8; 30];
    let tick = 120;

    let mut message = radio.format_message(payload, tick);
    message[5] ^= 0xFF;
    assert_eq!(radio.parse_message(message, tick), None);
}

#[test]
fn radio_test_test_hmac_verify_fails_with_modified_hmac() {
    let radio = radio(9876543, 0);
    let payload = [7u8; 30];
    let tick = 120;

    let mut message = radio.format_message(payload, tick);
    message[31] ^= 0x01;
    assert_eq!(radio.parse_message(message, tick), None);
}

// FNV-1a, written out independently.
fn fnv(bytes: &[u8]) -> u64 {
    let mut hash: u64 = 14695981039346656037;
    for b in bytes {
        hash = (hash ^ (*b as u64)).wrapping_mul(1099511628211);
    }
    hash
}

#[test]
fn channel_is_the_hash_modulo_ten() {
    let secret: u32 = 0x01020304;
    for tick in [0u32, 1, 255, 256, 70000, u32::MAX] {
        let mut bytes: Vec<u8> = Vec::new();
        bytes.extend_from_slice(&secret.to_le_bytes());
        bytes.extend_from_slice(&tick.to_le_bytes());
        let expected = (fnv(&bytes) % 10) as usize;
        assert_eq!(radio(secret, 0).channel_for_tick(tick), expected);
        assert_eq!(radio(secret, 7).channel_for_tick(tick), (expected + 7) % 10);
        assert_eq!(radio(secret, 24).channel_for_tick(tick), (expected + 24) % 10);
    }
}

#[test]
fn hmac_is_the_folded_hash() {
    let secret: u32 = 1337;
    let tick: u32 = 4242;
    let mut payload = [0u8; 30];
    for i in 0..30 {
        payload[i] = (i * 7) as u8;
    }
    let mut bytes: Vec<u8> = Vec::new();
    bytes.extend_from_slice(&secret.to_le_bytes());
    bytes.extend_from_slice(&tick.to_le_bytes());
    bytes.extend_from_slice(&payload);
    let h = fnv(&bytes);
    let folded = (h ^ (h >> 16) ^ (h >> 32) ^ (h >> 48)) as u16;
    assert_eq!(SecureRadio::compute_hmac(secret, tick, &payload), folded);
    let message = radio(secret, 0).format_message(payload, tick);
    assert_eq!(&message[..30], &payload[..]);
    assert_eq!(&message[30..], &folded.to_le_bytes()[..]);
}

#[test]
fn radios_by_class() {
    assert_eq!(RadioManager::new(Class::Cruiser).num_radios, 8);
    assert_eq!(RadioManager::new(Class::Frigate).num_radios, 4);
    assert_eq!(RadioManager::new(Class::Fighter).num_radios, 1);
    assert_eq!(RadioManager::new(Class::Missile).num_radios, 1);
}

#[test]
fn each_radio_is_handed_out_once_per_tick() {
    let mut manager = RadioManager::new(Class::Frigate);
    for expected in 0..4 {
        assert!(manager.avail(10));
        assert_eq!(manager.transmit(10), Some(expected));
    }
    assert!(!manager.avail(10));
    assert_eq!(manager.transmit(10), None);
    assert_eq!(manager.prepare_receive(10), None);
    // A new tick frees them all.
    assert!(manager.avail(11));
    assert_eq!(
        manager.prepare_receive(11),
        Some(ReceiveToken { radio_index: 0, valid_tick: 12 })
    );
    assert_eq!(manager.transmit(11), Some(1));
}

#[test]
fn token_is_good_for_one_tick() {
    let token = ReceiveToken { radio_index: 3, valid_tick: 50 };
    assert_eq!(token.receive(49), None);
    assert_eq!(token.receive(50), Some(3));
    assert_eq!(token.receive(51), None);
}

#[test]
fn receiver_accepts_what_sender_sent_a_tick_before() {
    let mut send_manager = RadioManager::new(Class::Cruiser);
    let mut receive_manager = RadioManager::new(Class::Fighter);
    let sender = radio(1337, 4);
    let mut receiver = radio(1337, 4);
    let payload = [42u8; 30];

    let tuned = receiver.prepare_receive(&mut receive_manager, 600);
    let sent = sender.transmit(&mut send_manager, 600, payload).expect("a radio is left");
    assert_eq!(tuned, Some((0, sent.channel)));
    assert_eq!(receiver.reserved_radio(601), Some(0));
    assert_eq!(receiver.receive(601, Some(sent.message)), Some(payload));
    // Nothing heard, another tick, another link.
    assert_eq!(receiver.receive(601, None), None);
    assert_eq!(receiver.receive(602, Some(sent.message)), None);
    assert_eq!(receiver.reserved_radio(602), None);
    let mut other = radio(1338, 4);
    let mut other_manager = RadioManager::new(Class::Fighter);
    other.prepare_receive(&mut other_manager, 600);
    assert_eq!(other.receive(601, Some(sent.message)), None);
}

#[test]
fn nothing_is_sent_without_a_radio() {
    let mut manager = RadioManager::new(Class::Fighter);
    let mut link = radio(1337, 0);
    assert!(link.avail(&mut manager, 5));
    assert!(link.transmit(&mut manager, 5, [1u8; 30]).is_some());
    assert!(!link.avail(&mut manager, 5));
    assert!(link.transmit(&mut manager, 5, [1u8; 30]).is_none());
    assert_eq!(link.prepare_receive(&mut manager, 5), None);
    assert_eq!(link.receive_token, None);
    assert_eq!(link.receive(6, Some([0u8; 32])), None);
}

#[test]
fn every_single_bit_of_the_code_counts() {
    let link = radio(55, 0);
    let message = link.format_message([9u8; 30], 77);
    for byte in 30..32 {
        for bit in 0..8 {
            let mut altered = message;
            altered[byte] ^= 1 << bit;
            assert_eq!(link.parse_message(altered, 77), None);
        }
    }
}
