use pfp_bridge::protocol::{Command, PFPRequest, PAYLOAD_SIZE};
use pfp_bridge::sink::{publication, telegraf_line};

fn push_request(device_serial: u32, intensity: u32) -> PFPRequest {
    let mut payload = [0u8; PAYLOAD_SIZE];
    payload[..4].copy_from_slice(&device_serial.to_be_bytes());
    payload[4..8].copy_from_slice(&intensity.to_be_bytes());
    PFPRequest {
        command_id: Command::Push.to_byte(),
        hop_count: 1,
        source_addr: 0x10,
        dest_addr: 0x01,
        forwarded_by_addr: 0x10,
        request_id: 4,
        request_part: 0,
        request_count: 1,
        payload,
    }
}

#[test]
fn line_of_a_reading() {
    assert_eq!(telegraf_line(5, 42), "telegraf serial=5,intensity=42");
}

#[test]
fn line_has_no_leading_zeros() {
    assert_eq!(telegraf_line(0, 0), "telegraf serial=0,intensity=0");
    assert_eq!(telegraf_line(10, 100), "telegraf serial=10,intensity=100");
    assert_eq!(telegraf_line(9, 1_000_000_000), "telegraf serial=9,intensity=1000000000");
}

#[test]
fn line_of_the_largest_values() {
    assert_eq!(
        telegraf_line(u32::MAX, u32::MAX),
        "telegraf serial=4294967295,intensity=4294967295"
    );
}

#[test]
fn line_matches_std_formatting() {
    let mut seed: u32 = 0x2545_F491;
    for _ in 0..1_000 {
        seed ^= seed << 13;
        seed ^= seed >> 17;
        seed ^= seed << 5;
        let serial = seed >> (seed % 32);
        let intensity = seed.rotate_left(7) >> (seed.rotate_left(3) % 32);
        assert_eq!(
            telegraf_line(serial, intensity),
            format!("telegraf serial={serial},intensity={intensity}")
        );
    }
}

#[test]
fn push_request_is_published() {
    assert_eq!(
        publication(&push_request(5, 42)),
        Some("telegraf serial=5,intensity=42".to_string())
    );
    assert_eq!(
        publication(&push_request(0xDEAD_BEEF, 7)),
        Some("telegraf serial=3735928559,intensity=7".to_string())
    );
}

#[test]
fn other_requests_are_not_published() {
    for byte in 0x00u8..=0x0E {
        if byte == 0x08 {
            continue;
        }
        let mut request = push_request(5, 42);
        request.command_id = byte;
        assert_eq!(publication(&request), None);
    }
    assert_eq!(publication(&PFPRequest::new_helop(1)), None);
}
