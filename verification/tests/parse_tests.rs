use nmea::num::{float_number, parse_float_num, Decimal};
use nmea::parse::{
    checksum, parse_gga, parse_gsa, parse_gsv, parse_hms, parse_nmea_sentence, parse_rmc,
    parse_vtg, GgaData, GsaData, GsaMode1, GsaMode2, NmeaSentence, ParseError, VtgData,
};
use nmea::time::{NaiveDate, NaiveTime};
use nmea::{FixType, GnssType, Satellite, SentenceType};

fn dec_f32(d: &Decimal) -> f32 {
    let v = d.scaled as f32 / 10f32.powi(d.scale as i32);
    if d.negative {
        -v
    } else {
        v
    }
}

fn dec_f64(d: &Decimal) -> f64 {
    let v = d.scaled as f64 / 10f64.powi(d.scale as i32);
    if d.negative {
        -v
    } else {
        v
    }
}

fn coord_f64(c: &nmea::Coord) -> f64 {
    let min = c.min_scaled as f64 / 10f64.powi(c.min_scale as i32);
    let v = c.degrees as f64 + min / 60.;
    if c.negative {
        -v
    } else {
        v
    }
}

#[test]
fn test_fix_type() {
    assert_eq!(FixType::from('A'), FixType::Invalid);
    assert_eq!(FixType::from('0'), FixType::Invalid);
    assert_eq!(FixType::from('1'), FixType::Gps);
    assert_eq!(FixType::from('2'), FixType::DGps);
    assert_eq!(FixType::from('3'), FixType::Pps);
    assert_eq!(FixType::from('4'), FixType::Rtk);
    assert_eq!(FixType::from('5'), FixType::FloatRtk);
    assert_eq!(FixType::from('6'), FixType::Estimated);
    assert_eq!(FixType::from('7'), FixType::Manual);
    assert_eq!(FixType::from('8'), FixType::Simulation);
}

#[test]
fn test_checksum() {
    let valid = "$GNGSA,A,1,,,,,,,,,,,,,99.99,99.99,99.99*2E";
    let invalid = "$GNZDA,165118.00,13,05,2016,00,00*71";
    assert_eq!(checksum(&valid.as_bytes()[1..valid.len() - 3]), 0x2E);
    assert_ne!(checksum(&invalid.as_bytes()[1..invalid.len() - 3]), 0x71);
}

#[test]
fn test_message_type() {
    assert_eq!(SentenceType::try_from(b"GGA").unwrap(), SentenceType::GGA);
    assert_eq!(SentenceType::try_from(b"XXX").unwrap(), SentenceType::Unknown);
}

#[test]
fn test_parse_rmc() {
    let s = parse_nmea_sentence(
        b"$GPRMC,225446.33,A,4916.45,N,12311.12,W,\
                                  000.5,054.7,191194,020.3,E,A*2B",
    )
    .unwrap();
    assert_eq!(s.checksum, s.calc_checksum());
    assert_eq!(s.checksum, 0x2b);
    let rmc_data = parse_rmc(&s).unwrap();
    assert_eq!(
        rmc_data.fix_time.unwrap(),
        NaiveTime::from_hms_milli(22, 54, 46, 330)
    );
    assert_eq!(rmc_data.fix_date.unwrap(), NaiveDate::from_ymd(94, 11, 19));

    let lat = coord_f64(&rmc_data.lat.unwrap());
    println!("lat: {}", lat);
    assert!((lat - (49.0 + 16.45 / 60.)).abs() < 1e-9);
    let lon = coord_f64(&rmc_data.lon.unwrap());
    println!("lon: {}, diff {}", lon, (lon + (123.0 + 11.12 / 60.)).abs());
    assert!((lon - (-(123.0 + 11.12 / 60.))).abs() < 1e-9);

    assert!((dec_f32(&rmc_data.speed_over_ground.unwrap()) - 0.5).abs() < 1e-6);
    assert!((dec_f32(&rmc_data.true_course.unwrap()) - 54.7).abs() < 1e-6);

    let s = parse_nmea_sentence(b"$GPRMC,,V,,,,,,,,,,N*53").unwrap();
    let rmc = parse_rmc(&s).unwrap();
    assert_eq!(
        nmea::RmcData {
            fix_time: None,
            fix_date: None,
            status_of_fix: Some(nmea::RmcStatusOfFix::Invalid),
            lat: None,
            lon: None,
            speed_over_ground: None,
            true_course: None,
        },
        rmc
    );
}

#[test]
fn test_float_number() {
    assert_eq!(Some(4), float_number(b"12.3"));
    assert_eq!(Some(4), float_number(b"12.3a"));
    assert_eq!(&b"12.3a"[..4], b"12.3");
    assert_eq!(Some(2), float_number(b"12a"));
    assert_eq!(&b"12a"[..2], b"12");
    assert_eq!(None, float_number(b"a12a"));
}

#[test]
fn test_parse_float_num_forms() {
    assert_eq!(
        parse_float_num(b"12.3"),
        Some(Decimal {
            negative: false,
            scaled: 123,
            scale: 1
        })
    );
    assert_eq!(
        parse_float_num(b"-61.7"),
        Some(Decimal {
            negative: true,
            scaled: 617,
            scale: 1
        })
    );
    assert_eq!(
        parse_float_num(b"5."),
        Some(Decimal {
            negative: false,
            scaled: 5,
            scale: 0
        })
    );
    assert_eq!(
        parse_float_num(b".5"),
        Some(Decimal {
            negative: false,
            scaled: 5,
            scale: 1
        })
    );
    assert_eq!(parse_float_num(b""), None);
    assert_eq!(parse_float_num(b"."), None);
    assert_eq!(parse_float_num(b"-"), None);
    assert_eq!(parse_float_num(b"12a"), None);
    assert_eq!(parse_float_num(b"1.2.3"), None);
}

#[test]
fn test_parse_vtg() {
    let run_parse_vtg = |line: &str| -> Result<VtgData, ParseError> {
        let s = parse_nmea_sentence(line.as_bytes()).expect("VTG sentence initial parse failed");
        assert_eq!(s.checksum, s.calc_checksum());
        parse_vtg(&s)
    };
    assert_eq!(
        VtgData {
            true_course: None,
            speed_over_ground: None
        },
        run_parse_vtg("$GPVTG,,T,,M,,N,,K,N*2C").unwrap()
    );
    let vtg = run_parse_vtg("$GPVTG,360.0,T,348.7,M,000.0,N,000.0,K*43").unwrap();
    assert_eq!(dec_f32(&vtg.true_course.unwrap()), 360.0);
    assert_eq!(dec_f32(&vtg.speed_over_ground.unwrap()), 0.0);
    let vtg = run_parse_vtg("$GPVTG,054.7,T,034.4,M,005.5,N,010.2,K*48").unwrap();
    assert_eq!(dec_f32(&vtg.true_course.unwrap()), 54.7);
    assert_eq!(dec_f32(&vtg.speed_over_ground.unwrap()), 5.5);
}

#[test]
fn test_parse_vtg_kmh_conversion() {
    // knots blank, km/h given: the speed is km/h divided by 1.852
    let body = "GPVTG,054.7,T,034.4,M,,N,010.2,K";
    let line = format!("${}*{:02X}", body, checksum(body.as_bytes()));
    let s = parse_nmea_sentence(line.as_bytes()).unwrap();
    let vtg = parse_vtg(&s).unwrap();
    // 10.2 km/h is 102 * 10^9 / 1852 scaled units at six more fractional
    // digits, truncated
    assert_eq!(
        vtg.speed_over_ground.unwrap(),
        Decimal {
            negative: false,
            scaled: 55_075_593,
            scale: 7
        }
    );
    let speed = dec_f64(&vtg.speed_over_ground.unwrap());
    assert!((speed - 10.2 / 1.852).abs() < 1e-6);
}

#[test]
fn test_parse_gsv_full() {
    let data = parse_gsv(&NmeaSentence {
        talker_id: b"GP".to_vec(),
        message_id: b"GSV".to_vec(),
        data: b"2,1,08,01,,083,46,02,17,308,,12,07,344,39,14,22,228,".to_vec(),
        checksum: 0,
    })
    .unwrap();
    assert_eq!(data.gnss_type, GnssType::Gps);
    assert_eq!(data.number_of_sentences, 2);
    assert_eq!(data.sentence_num, 1);
    assert_eq!(data._sats_in_view, 8);
    assert_eq!(
        data.sats_info[0].unwrap(),
        Satellite {
            gnss_type: data.gnss_type,
            prn: 1,
            elevation: None,
            azimuth: Some(83),
            snr: Some(46)
        }
    );
    assert_eq!(
        data.sats_info[1].unwrap(),
        Satellite {
            gnss_type: data.gnss_type,
            prn: 2,
            elevation: Some(17),
            azimuth: Some(308),
            snr: None
        }
    );
    assert_eq!(
        data.sats_info[2].unwrap(),
        Satellite {
            gnss_type: data.gnss_type,
            prn: 12,
            elevation: Some(7),
            azimuth: Some(344),
            snr: Some(39)
        }
    );
    assert_eq!(
        data.sats_info[3].unwrap(),
        Satellite {
            gnss_type: data.gnss_type,
            prn: 14,
            elevation: Some(22),
            azimuth: Some(228),
            snr: None
        }
    );

    let data = parse_gsv(&NmeaSentence {
        talker_id: b"GL".to_vec(),
        message_id: b"GSV".to_vec(),
        data: b"3,3,10,72,40,075,43,87,00,000,".to_vec(),
        checksum: 0,
    })
    .unwrap();
    assert_eq!(data.gnss_type, GnssType::Glonass);
    assert_eq!(data.number_of_sentences, 3);
    assert_eq!(data.sentence_num, 3);
    assert_eq!(data._sats_in_view, 10);
}

#[test]
fn test_parse_hms() {
    let time = parse_hms(b"125619,").unwrap();
    assert_eq!(time.hour(), 12);
    assert_eq!(time.minute(), 56);
    assert_eq!(time.second(), 19);
    assert_eq!(time.nanosecond(), 0);
    let time = parse_hms(b"125619.5,").unwrap();
    assert_eq!(time.hour(), 12);
    assert_eq!(time.minute(), 56);
    assert_eq!(time.second(), 19);
    assert_eq!(time.nanosecond(), 500_000_000);
}

#[test]
fn test_parse_gga_full() {
    let data = parse_gga(&NmeaSentence {
        talker_id: b"GP".to_vec(),
        message_id: b"GGA".to_vec(),
        data: b"033745.0,5650.82344,N,03548.9778,E,1,07,1.8,101.2,M,14.7,M,,".to_vec(),
        checksum: 0x57,
    })
    .unwrap();
    assert_eq!(data.fix_time.unwrap(), NaiveTime::from_hms(3, 37, 45));
    assert_eq!(data.fix_type.unwrap(), FixType::Gps);
    assert!((coord_f64(&data.latitude.unwrap()) - (56. + 50.82344 / 60.)).abs() < 1e-9);
    assert!((coord_f64(&data.longitude.unwrap()) - (35. + 48.9778 / 60.)).abs() < 1e-9);
    assert_eq!(data.fix_satellites.unwrap(), 7);
    assert!((dec_f32(&data.hdop.unwrap()) - 1.8).abs() < 1e-6);
    assert!((dec_f32(&data.altitude.unwrap()) - 101.2).abs() < 1e-5);
    assert!((dec_f32(&data.geoid_height.unwrap()) - 14.7).abs() < 1e-6);

    let s = parse_nmea_sentence(b"$GPGGA,,,,,,0,,,,,,,,*66").unwrap();
    assert_eq!(s.checksum, s.calc_checksum());
    let data = parse_gga(&s).unwrap();
    assert_eq!(
        GgaData {
            fix_time: None,
            fix_type: Some(FixType::Invalid),
            latitude: None,
            longitude: None,
            fix_satellites: None,
            hdop: None,
            altitude: None,
            geoid_height: None,
        },
        data
    );
}

#[test]
fn test_parse_gga_with_optional_fields() {
    let sentence =
        parse_nmea_sentence(b"$GPGGA,133605.0,5521.75946,N,03731.93769,E,0,00,,,M,,M,,*4F")
            .unwrap();
    assert_eq!(sentence.checksum, sentence.calc_checksum());
    assert_eq!(sentence.checksum, 0x4f);
    let data = parse_gga(&sentence).unwrap();
    assert_eq!(data.fix_type.unwrap(), FixType::Invalid);
}

#[test]
fn smoke_test_parse_gsa() {
    let s = parse_nmea_sentence(b"$GPGSA,A,3,,,,,,16,18,,22,24,,,3.6,2.1,2.2*3C").unwrap();
    let gsa = parse_gsa(&s).unwrap();
    assert_eq!(
        GsaData {
            mode1: GsaMode1::Automatic,
            mode2: GsaMode2::Fix3D,
            fix_sats_prn: vec![16, 18, 22, 24],
            pdop: Some(Decimal {
                negative: false,
                scaled: 36,
                scale: 1
            }),
            hdop: Some(Decimal {
                negative: false,
                scaled: 21,
                scale: 1
            }),
            vdop: Some(Decimal {
                negative: false,
                scaled: 22,
                scale: 1
            }),
        },
        gsa
    );
    let gsa_examples = [
        "$GPGSA,A,3,19,28,14,18,27,22,31,39,,,,,1.7,1.0,1.3*35",
        "$GPGSA,A,3,23,31,22,16,03,07,,,,,,,1.8,1.1,1.4*3E",
        "$BDGSA,A,3,214,,,,,,,,,,,,1.8,1.1,1.4*18",
        "$GNGSA,A,3,31,26,21,,,,,,,,,,3.77,2.55,2.77*1A",
        "$GNGSA,A,3,75,86,87,,,,,,,,,,3.77,2.55,2.77*1C",
        "$GPGSA,A,1,,,,*32",
    ];
    for line in &gsa_examples {
        println!("we parse line '{}'", line);
        let s = parse_nmea_sentence(line.as_bytes()).unwrap();
        parse_gsa(&s).unwrap();
    }
}

#[test]
fn test_oversized_input_rejected_first() {
    // anything over 102 bytes fails before any grammar runs, even when the
    // content is not a sentence at all
    let long = vec![b'x'; 103];
    assert_eq!(
        parse_nmea_sentence(&long),
        Err(ParseError::TooLongMessage)
    );
    let mut nmea = nmea::Nmea::new();
    assert_eq!(
        nmea.parse_for_fix(&long),
        Err(ParseError::TooLongMessage)
    );
    // a well-formed sentence padded over the ceiling fails the same way
    let mut padded = b"$GPGGA,092750.000,5321.6802,N,00630.3372,W,1,8,1.03,61.7,M,55.2,M,,*76"
        .to_vec();
    padded.resize(103, b' ');
    assert_eq!(parse_nmea_sentence(&padded), Err(ParseError::TooLongMessage));
}

#[test]
fn test_error_variants() {
    // cut-off input
    assert_eq!(
        parse_nmea_sentence(b"$GPGGA,0927"),
        Err(ParseError::Incomplete)
    );
    // structural mismatch
    assert_eq!(parse_nmea_sentence(b"XGPGGA,1*33"), Err(ParseError::Nom));
    // checksum mismatch
    assert_eq!(
        nmea::parse("$GPGGA,,,,,,0,,,,,,,,*67".as_bytes()),
        Err(ParseError::ChecksumFail)
    );
    // unknown constellation for GSV
    let body = "BDGSV,3,1,11,10,63,137,17";
    let line = format!("${}*{:02X}", body, checksum(body.as_bytes()));
    assert_eq!(nmea::parse(line.as_bytes()), Err(ParseError::UnknownGnss));
    // decoder handed the wrong sentence
    let s = parse_nmea_sentence(b"$GPRMC,,V,,,,,,,,,,N*53").unwrap();
    assert_eq!(parse_gga(&s), Err(ParseError::InvalidMessageId));
    // malformed numeric field
    let body = "GPGSA,A,3,16,18,,x,2.1,2.2";
    let line = format!("${}*{:02X}", body, checksum(body.as_bytes()));
    let s = parse_nmea_sentence(line.as_bytes()).unwrap();
    assert_eq!(parse_gsa(&s), Err(ParseError::NumberFail));
    // hour out of range
    let body = "GPGGA,250000.0,5321.6802,N,00630.3372,W,1,8,1.03,61.7,M,55.2,M,,";
    let line = format!("${}*{:02X}", body, checksum(body.as_bytes()));
    assert_eq!(nmea::parse(line.as_bytes()), Err(ParseError::InvalidTime));
    // day out of range
    let body = "GPRMC,225446.33,A,4916.45,N,12311.12,W,000.5,054.7,001194,020.3,E,A";
    let line = format!("${}*{:02X}", body, checksum(body.as_bytes()));
    assert_eq!(nmea::parse(line.as_bytes()), Err(ParseError::InvalidDate));
    // status letter outside A, D, V
    let body = "GPRMC,225446.33,X,4916.45,N,12311.12,W,000.5,054.7,191194,020.3,E,A";
    let line = format!("${}*{:02X}", body, checksum(body.as_bytes()));
    assert_eq!(
        nmea::parse(line.as_bytes()),
        Err(ParseError::InvalidFixStatus)
    );
    // a GSV sentence index of zero names no slot
    let body = "GPGSV,3,0,11,10,63,137,17";
    let line = format!("${}*{:02X}", body, checksum(body.as_bytes()));
    let mut nmea = nmea::Nmea::new();
    assert_eq!(
        nmea.parse_for_fix(line.as_bytes()),
        Err(ParseError::InvalidGsvSentenceNum)
    );
    // a well-formed sentence of an unmerged type
    let body = "GNZDA,165118.00,13,05,2016,00,00";
    let line = format!("${}*{:02X}", body, checksum(body.as_bytes()));
    assert_eq!(
        nmea.parse(&line),
        Err(ParseError::UnsupportedSentenceType)
    );
}

#[test]
fn test_format_coord_exact_round_trip() {
    // rendering a coordinate into its wire field and decoding the whole
    // sentence again reproduces the stored value exactly
    let lat = nmea::parse::format_coord(53, 2, 21_680_200);
    let lon = nmea::parse::format_coord(6, 3, 30_337_200);
    assert_eq!(lat, b"5321.680200".to_vec());
    assert_eq!(lon, b"00630.337200".to_vec());
    let body = format!(
        "GPGGA,092750.000,{},N,{},W,1,8,1.03,61.7,M,55.2,M,,",
        String::from_utf8(lat).unwrap(),
        String::from_utf8(lon).unwrap()
    );
    let line = format!("${}*{:02X}", body, checksum(body.as_bytes()));
    let s = parse_nmea_sentence(line.as_bytes()).unwrap();
    let data = parse_gga(&s).unwrap();
    assert_eq!(
        data.latitude.unwrap(),
        nmea::Coord {
            negative: false,
            degrees: 53,
            min_scaled: 21_680_200,
            min_scale: 6
        }
    );
    assert_eq!(
        data.longitude.unwrap(),
        nmea::Coord {
            negative: true,
            degrees: 6,
            min_scaled: 30_337_200,
            min_scale: 6
        }
    );
}

#[test]
fn test_checksum_bit_flip_detected() {
    // flipping one bit inside the checksummed span must flip the verdict
    let good = b"$GPGGA,092750.000,5321.6802,N,00630.3372,W,1,8,1.03,61.7,M,55.2,M,,*76";
    assert!(nmea::parse(good).is_ok());
    for i in [1usize, 5, 10, 33, 60] {
        for bit in 0..8u8 {
            let mut flipped = good.to_vec();
            flipped[i] ^= 1 << bit;
            // the flip may break the grammar itself; what it can never do
            // is pass validation with the old checksum
            assert!(nmea::parse(&flipped).is_err(), "flip at {} bit {}", i, bit);
        }
    }
}
