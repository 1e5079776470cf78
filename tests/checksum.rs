use adafruit_gps::{add_checksum, is_valid_checksum, parse_sentence};

const GGA: &str = "$GNGGA,165419.000,5132.7378,N,00005.9192,W,1,7,1.93,34.4,M,47.0,M,,*6A";

#[test]
#[allow(non_snake_case)]
fn PMTK_checksum() {
    assert_eq!(
        add_checksum(
            "GNGGA,165419.000,5132.7378,N,00005.9192,W,1,7,1.93,34.4,M,47.0,M,,".to_string()
        ),
        "$GNGGA,165419.000,5132.7378,N,00005.9192,W,1,7,1.93,34.4,M,47.0,M,,*6A\r\n".to_string()
    );
    assert_eq!(add_checksum("PMTK103".to_string()), "$PMTK103*30\r\n")
}

#[test]
fn pmtk_checksum() {
    assert_eq!(
        add_checksum(
            "GNGGA,165419.000,5132.7378,N,00005.9192,W,1,7,1.93,34.4,M,47.0,M,,".to_string()
        ),
        "$GNGGA,165419.000,5132.7378,N,00005.9192,W,1,7,1.93,34.4,M,47.0,M,,*6A\r\n".to_string()
    );
    assert_eq!(add_checksum("PMTK103".to_string()), "$PMTK103*30\r\n")
}

#[test]
fn is_valid_sentence() {
    assert_eq!(is_valid_checksum("$PMTK220,100*2F"), true);
    assert_eq!(
        is_valid_checksum("$GPGSV,4,3,14,12,12,100,,04,11,331,,16,06,282,,05,05,074,22*75"),
        true
    );
    assert_eq!(is_valid_checksum("$GPGSV,4,4,14,32,01,215,,41,,,*4F"), true);
    assert_eq!(
        is_valid_checksum(
            "$GNGGA,131613.000,5132.7314,N,00005.9099,W,1,9,1.17,42.4,M,47.0,M,,*60\r\n"
        ),
        true
    );
    assert_eq!(
        is_valid_checksum("$GPGSA,A,3,29,02,26,25,31,14,,,,,,,1.42,1.17,0.80*07\r\n"),
        true
    );
    assert_eq!(
        is_valid_checksum("$GPGSA,A,3,29,02,26,25,31,14,,,,,,,1.42,1.17,0.80*A7\r\n"),
        false
    );
}

#[test]
fn valid_line_and_flipped_digit() {
    assert!(is_valid_checksum(GGA));
    let flipped = GGA.replace("*6A", "*6B");
    assert!(!is_valid_checksum(&flipped));
    let flipped_high = GGA.replace("*6A", "*7A");
    assert!(!is_valid_checksum(&flipped_high));
}

#[test]
fn checksum_digits_are_case_insensitive() {
    assert!(is_valid_checksum(&GGA.replace("*6A", "*6a")));
}

#[test]
fn short_or_malformed_lines_fail() {
    assert!(!is_valid_checksum(""));
    assert!(!is_valid_checksum("$A*41"));
    assert!(!is_valid_checksum("$PMTK103+30"));
    assert!(!is_valid_checksum("$PMTK103*3G"));
    assert!(!is_valid_checksum("   \r\n"));
}

#[test]
fn framed_commands_validate() {
    let framed = add_checksum("PMTK220,1000".to_string());
    assert_eq!(framed, "$PMTK220,1000*1F\r\n");
    assert!(is_valid_checksum(&framed));
}

#[test]
fn commands_are_upper_cased_before_the_checksum() {
    assert_eq!(add_checksum("pmtk103".to_string()), "$PMTK103*30\r\n");
}

#[test]
fn single_digit_checksums_keep_two_digits() {
    // "AB" xors to 0x03.
    let framed = add_checksum("AB".to_string());
    assert_eq!(framed, "$AB*03\r\n");
}

#[test]
fn sentence_fields_drop_the_checksum() {
    let fields = parse_sentence("$PMTK001,220,3*30\r\n").unwrap();
    assert_eq!(fields, vec!["$PMTK001", "220", "3"]);
    assert_eq!(parse_sentence("$PMTK001,220,3*31"), None);
    assert_eq!(parse_sentence("$P*50"), None);
}

#[test]
fn sentence_fields_keep_empty_fields() {
    let fields = parse_sentence("$GPGSV,4,4,14,32,01,215,,41,,,*4F").unwrap();
    assert_eq!(fields, vec!["$GPGSV", "4", "4", "14", "32", "01", "215", "", "41", "", "", ""]);
}
