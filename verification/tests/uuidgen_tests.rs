use hdct::commands::{HdctCommand, Uuid};
use hdct::uuidgen::{format_uuid, generate_uuid};

const BYTES: [u8; 16] = [
    0x67, 0xe5, 0x50, 0x44, 0x10, 0xb1, 0x42, 0x6f, 0x92, 0x47, 0xbb, 0x68, 0x0e, 0x5f, 0xe0, 0xc8,
];

#[test]
fn formats_known_bytes() {
    assert_eq!(format_uuid(BYTES, true, false), "67e55044-10b1-426f-9247-bb680e5fe0c8");
    assert_eq!(format_uuid(BYTES, false, false), "67e5504410b1426f9247bb680e5fe0c8");
    assert_eq!(format_uuid(BYTES, true, true), "67E55044-10B1-426F-9247-BB680E5FE0C8");
    assert_eq!(format_uuid(BYTES, false, true), "67E5504410B1426F9247BB680E5FE0C8");
}

#[test]
fn hyphenated_form_is_simple_form_with_hyphens() {
    let h = format_uuid(BYTES, true, false);
    let s = format_uuid(BYTES, false, false);
    assert_eq!(h.len(), 36);
    assert_eq!(h.replace('-', ""), s);
    for i in [8, 13, 18, 23] {
        assert_eq!(h.as_bytes()[i], b'-');
    }
}

#[test]
fn generated_uuids_are_version_four() {
    for (hyphens, upper) in [(true, false), (false, false), (true, true), (false, true)] {
        let u = generate_uuid(hyphens, upper);
        let digits: String = u.chars().filter(|c| *c != '-').collect();
        assert_eq!(digits.len(), 32);
        assert_eq!(u.len(), if hyphens { 36 } else { 32 });
        assert_eq!(&digits[12..13], "4");
        assert!("89abAB".contains(&digits[16..17]));
        assert!(digits.chars().all(|c| c.is_ascii_hexdigit()));
        if upper {
            assert!(!u.chars().any(|c| c.is_ascii_lowercase()));
        } else {
            assert!(!u.chars().any(|c| c.is_ascii_uppercase()));
        }
    }
    assert_ne!(generate_uuid(true, false), generate_uuid(true, false));
}

#[test]
fn uuid_command_gives_a_uuid() {
    let r = Uuid { hyphens: false, upper: true }.run(1).unwrap();
    assert_eq!(r.len(), 32);
    assert!(uuid::Uuid::parse_str(&r).is_ok());
}
