use music_sync::color::{
    color_downsample, color_to_hex, color_upsample, hex_to_color, parse_hex_color,
};
use music_sync::hex::{decode_hex, digit, pair, HexError};

#[test]
fn downsample_scales_by_255_over_65535() {
    assert_eq!(color_downsample([0, 65535, 32768]), [0, 255, 127]);
    assert_eq!(color_downsample([256, 257, 513]), [0, 1, 1]);
    assert_eq!(color_downsample([65534, 65278, 65279]), [254, 254, 254]);
}

#[test]
fn downsample_agrees_with_the_quotient_for_every_level() {
    for v in 0..=u16::MAX {
        let expected = ((v as f64 / u16::MAX as f64) * u8::MAX as f64) as u8;
        assert_eq!(color_downsample([v, 0, 0])[0], expected);
    }
}

#[test]
fn upsample_scales_by_65535_over_255() {
    assert_eq!(color_upsample([0, 255, 128]), [0, 65535, 32896]);
    assert_eq!(color_upsample([1, 2, 254]), [257, 514, 65278]);
    for v in 0..=u8::MAX {
        let expected = ((v as f64 / u8::MAX as f64) * u16::MAX as f64) as u16;
        assert_eq!(color_upsample([v, 0, 0])[0], expected);
    }
}

#[test]
fn upsample_then_downsample_is_identity() {
    for v in 0..=u8::MAX {
        assert_eq!(color_downsample(color_upsample([v, v, v])), [v, v, v]);
    }
}

#[test]
fn hex_notation_pads_to_two_digits() {
    assert_eq!(color_to_hex(&[0, 10, 255]), "#000AFF");
    assert_eq!(color_to_hex(&[1, 16, 171]), "#0110AB");
}

#[test]
fn hex_notation_of_wide_channels() {
    assert_eq!(color_to_hex(&[65535, 0, 0]), format!("#{:02X}{:02X}{:02X}", 65535, 0, 0));
    assert_eq!(color_to_hex(&[256, 4095, 4096]), "#100FFF1000");
    for v in [0u16, 9, 15, 16, 255, 256, 2748, 4095, 4096, 43981, 65535] {
        assert_eq!(color_to_hex(&[v, v, v]), format!("#{:02X}{:02X}{:02X}", v, v, v));
    }
}

#[test]
fn colour_is_read_from_its_notation() {
    assert_eq!(hex_to_color("#000AFF"), [0, 10, 255]);
    assert_eq!(hex_to_color("#ff8000"), [255, 128, 0]);
    assert_eq!(hex_to_color("xAbCdEf trailing"), [0xab, 0xcd, 0xef]);
    assert_eq!(hex_to_color("#+1+a+F"), [1, 10, 15]);
}

#[test]
fn malformed_notation_is_not_parsed() {
    assert_eq!(parse_hex_color("#000AFF"), Some([0, 10, 255]));
    assert_eq!(parse_hex_color("#000AF"), None);
    assert_eq!(parse_hex_color(""), None);
    assert_eq!(parse_hex_color("#00GG00"), None);
    assert_eq!(parse_hex_color("#-10000"), None);
    assert_eq!(parse_hex_color("\u{e9}00112"), None);
}

#[test]
fn hex_digits() {
    assert_eq!(digit(b'0'), Some(0));
    assert_eq!(digit(b'9'), Some(9));
    assert_eq!(digit(b'a'), Some(10));
    assert_eq!(digit(b'F'), Some(15));
    assert_eq!(digit(b'g'), None);
    assert_eq!(digit(b'/'), None);
    assert_eq!(digit(b':'), None);
    assert_eq!(digit(b'@'), None);
    assert_eq!(digit(b'`'), None);
    assert_eq!(pair(b'f', b'f'), Some(255));
    assert_eq!(pair(b'1', b'0'), Some(16));
    assert_eq!(pair(b'+', b'7'), Some(7));
    assert_eq!(pair(b'+', b'+'), None);
    assert_eq!(pair(b'-', b'7'), None);
    assert_eq!(pair(b'7', b'+'), None);
}

#[test]
fn pairs_agree_with_the_standard_parser() {
    for hi in 0u8..128 {
        for lo in 0u8..128 {
            let text = String::from_utf8(vec![hi, lo]).unwrap();
            assert_eq!(pair(hi, lo), u8::from_str_radix(&text, 16).ok());
        }
    }
}

#[test]
fn key_is_decoded() {
    assert_eq!(decode_hex("00ff10Ab"), Ok(vec![0, 255, 16, 171]));
    assert_eq!(decode_hex(""), Ok(vec![]));
    assert_eq!(decode_hex("+1"), Ok(vec![1]));
}

#[test]
fn bad_digit_is_reported() {
    assert_eq!(decode_hex("00zz"), Err(HexError::InvalidDigit));
    assert_eq!(decode_hex("0x10"), Err(HexError::InvalidDigit));
    assert_eq!(decode_hex("g01"), Err(HexError::InvalidDigit));
    assert_eq!(decode_hex(" 1"), Err(HexError::InvalidDigit));
}

#[test]
fn colours_add_up_to_full_at_most() {
    let mut lights = vec![[100u16, 200, 65535], [1, 2, 3]];
    music_sync::color::update_color(&mut lights, &[[5, 65535, 1]], true);
    assert_eq!(lights, vec![[105, 65535, 65535], [1, 2, 3]]);
}

#[test]
fn colours_replace() {
    let mut lights = vec![[100u16, 200, 300]];
    music_sync::color::update_color(&mut lights, &[[5, 6, 7], [8, 9, 10]], false);
    assert_eq!(lights, vec![[5, 6, 7], [8, 9, 10]]);
    music_sync::color::update_color(&mut lights, &[], false);
    assert_eq!(lights, vec![[5, 6, 7], [8, 9, 10]]);
}

#[test]
fn new_lights_start_dark() {
    let mut lights: Vec<[u16; 3]> = vec![[0, 0, 0]];
    music_sync::color::update_color(&mut lights, &[[1, 1, 1], [2, 2, 2], [3, 3, 3]], true);
    assert_eq!(lights, vec![[1, 1, 1], [2, 2, 2], [3, 3, 3]]);
}
