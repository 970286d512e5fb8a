use nmea::parse::checksum;
use nmea::time::NaiveTime;
use nmea::{FixType, GnssType, Nmea, Satellite, SentenceType};

fn dec_f32(d: &nmea::Decimal) -> f32 {
    let v = d.scaled as f32 / 10f32.powi(d.scale as i32);
    if d.negative {
        -v
    } else {
        v
    }
}

fn coord_f64(c: &nmea::Coord) -> f64 {
    let min = c.min_scaled as f64 / 10f64.powi(c.min_scale as i32);
    let v = c.degrees as f64 + min / 60.;
    if c.negative {
        -v
    } else {
        v
    }
}

fn sat_checks(sat: &Satellite) {
    assert_eq!(sat.gnss_type(), GnssType::Gps);
    assert_eq!(sat.prn(), 10);
    assert_eq!(sat.elevation(), Some(63));
    assert_eq!(sat.azimuth(), Some(137));
    assert_eq!(sat.snr(), Some(17));
}

#[test]
fn test_gga_north_west() {
    let mut nmea = Nmea::new();
    nmea.parse("$GPGGA,092750.000,5321.6802,N,00630.3372,W,1,8,1.03,61.7,M,55.2,M,,*76")
        .unwrap();
    assert_eq!(nmea.fix_timestamp().unwrap().second(), 50);
    assert_eq!(nmea.fix_timestamp().unwrap().minute(), 27);
    assert_eq!(nmea.fix_timestamp().unwrap().hour(), 9);
    assert_eq!(coord_f64(&nmea.latitude().unwrap()), 53. + 21.6802 / 60.);
    assert_eq!(coord_f64(&nmea.longitude().unwrap()), -(6. + 30.3372 / 60.));
    assert_eq!(nmea.fix_type().unwrap(), FixType::Gps);
    assert_eq!(nmea.fix_satellites().unwrap(), 8);
    assert_eq!(dec_f32(&nmea.hdop().unwrap()), 1.03);
    assert_eq!(dec_f32(&nmea.geoid_height().unwrap()), 55.2);
}

#[test]
fn test_gga_north_east() {
    let mut nmea = Nmea::new();
    nmea.parse("$GPGGA,092750.000,5321.6802,N,00630.3372,E,1,8,1.03,61.7,M,55.2,M,,*64")
        .unwrap();
    assert_eq!(coord_f64(&nmea.latitude().unwrap()), 53. + 21.6802 / 60.);
    assert_eq!(coord_f64(&nmea.longitude().unwrap()), 6. + 30.3372 / 60.);
}

#[test]
fn test_gga_south_west() {
    let mut nmea = Nmea::new();
    nmea.parse("$GPGGA,092750.000,5321.6802,S,00630.3372,W,1,8,1.03,61.7,M,55.2,M,,*6B")
        .unwrap();
    assert_eq!(coord_f64(&nmea.latitude().unwrap()), -(53. + 21.6802 / 60.));
    assert_eq!(coord_f64(&nmea.longitude().unwrap()), -(6. + 30.3372 / 60.));
}

#[test]
fn test_gga_south_east() {
    let mut nmea = Nmea::new();
    nmea.parse("$GPGGA,092750.000,5321.6802,S,00630.3372,E,1,8,1.03,61.7,M,55.2,M,,*79")
        .unwrap();
    assert_eq!(coord_f64(&nmea.latitude().unwrap()), -(53. + 21.6802 / 60.));
    assert_eq!(coord_f64(&nmea.longitude().unwrap()), 6. + 30.3372 / 60.);
}

#[test]
fn test_gga_invalid() {
    // the checksum of this line does not match its content
    let mut nmea = Nmea::new();
    nmea.parse("$GPGGA,092750.000,5321.6802,S,00630.3372,E,0,8,1.03,61.7,M,55.2,M,,*7B")
        .unwrap_err();
    assert_eq!(nmea.fix_type(), None);
}

#[test]
fn test_gga_quality_zero_is_not_an_error() {
    // fix quality 0 is a legal enumerated value: the merge succeeds and
    // reports an invalid fix type
    let mut nmea = Nmea::new();
    let res = nmea.parse("$GPGGA,133605.0,5521.75946,N,03731.93769,E,0,00,,,M,,M,,*4F");
    assert_eq!(res, Ok(SentenceType::GGA));
    assert_eq!(nmea.fix_type(), Some(FixType::Invalid));
}

#[test]
fn test_gga_gps() {
    let mut nmea = Nmea::new();
    nmea.parse("$GPGGA,092750.000,5321.6802,S,00630.3372,E,1,8,1.03,61.7,M,55.2,M,,*79")
        .unwrap();
    assert_eq!(nmea.fix_timestamp().unwrap().second(), 50);
    assert_eq!(nmea.fix_timestamp().unwrap().minute(), 27);
    assert_eq!(nmea.fix_timestamp().unwrap().hour(), 9);
    assert_eq!(-(53. + 21.6802 / 60.), coord_f64(&nmea.latitude.unwrap()));
    assert_eq!(6. + 30.3372 / 60., coord_f64(&nmea.longitude.unwrap()));
    assert_eq!(nmea.fix_type(), Some(FixType::Gps));
    assert_eq!(8, nmea.num_of_fix_satellites.unwrap());
    assert_eq!(1.03, dec_f32(&nmea.hdop.unwrap()));
    assert_eq!(61.7, dec_f32(&nmea.altitude.unwrap()));
    assert_eq!(55.2, dec_f32(&nmea.geoid_height.unwrap()));
}

#[test]
fn test_gsv() {
    let mut nmea = Nmea::new();
    //                        10           07           05           08
    nmea.parse("$GPGSV,3,1,11,10,63,137,17,07,61,098,15,05,59,290,20,08,54,157,30*70")
        .unwrap();
    //                        02           13           26         04
    nmea.parse("$GPGSV,3,2,11,02,39,223,19,13,28,070,17,26,23,252,,04,14,186,14*79")
        .unwrap();
    //                        29           16         36
    nmea.parse("$GPGSV,3,3,11,29,09,301,24,16,09,020,,36,,,*76")
        .unwrap();
    assert_eq!(nmea.satellites().len(), 11);

    let sats = nmea.satellites();
    sat_checks(&sats[0]);
}

#[test]
fn test_gsv_real_data() {
    let mut nmea = Nmea::new();
    let real_data = [
        "$GPGSV,3,1,12,01,49,196,41,03,71,278,32,06,02,323,27,11,21,196,39*72",
        "$GPGSV,3,2,12,14,39,063,33,17,21,292,30,19,20,310,31,22,82,181,36*73",
        "$GPGSV,3,3,12,23,34,232,42,25,11,045,33,31,45,092,38,32,14,061,39*75",
        "$GLGSV,3,1,10,74,40,078,43,66,23,275,31,82,10,347,36,73,15,015,38*6B",
        "$GLGSV,3,2,10,75,19,135,36,65,76,333,31,88,32,233,33,81,40,302,38*6A",
        "$GLGSV,3,3,10,72,40,075,43,87,00,000,*6F",
        "$GPGSV,4,4,15,26,02,112,,31,45,071,,32,01,066,*4C",
    ];
    for line in &real_data {
        assert_eq!(nmea.parse(line).unwrap(), SentenceType::GSV);
    }
}

#[test]
fn test_gsv_order() {
    let mut nmea = Nmea::new();
    //                         2           13           26         04
    nmea.parse("$GPGSV,3,2,11,02,39,223,19,13,28,070,17,26,23,252,,04,14,186,14*79")
        .unwrap();
    //                        29           16         36
    nmea.parse("$GPGSV,3,3,11,29,09,301,24,16,09,020,,36,,,*76")
        .unwrap();
    //                        10           07           05           08
    nmea.parse("$GPGSV,3,1,11,10,63,137,17,07,61,098,15,05,59,290,20,08,54,157,30*70")
        .unwrap();
    assert_eq!(nmea.satellites().len(), 11);

    let sats = nmea.satellites();
    sat_checks(&sats[0]);
}

#[test]
fn test_gsv_two_of_three() {
    let mut nmea = Nmea::new();
    //                         2           13           26          4
    nmea.parse("$GPGSV,3,2,11,02,39,223,19,13,28,070,17,26,23,252,,04,14,186,14*79")
        .unwrap();
    //                        29           16         36
    nmea.parse("$GPGSV,3,3,11,29,09,301,24,16,09,020,,36,,,*76")
        .unwrap();
    assert_eq!(nmea.satellites().len(), 7);
}

#[test]
fn test_parse() {
    let sentences = [
        "$GPGGA,092750.000,5321.6802,N,00630.3372,W,1,8,1.03,61.7,M,55.2,M,,*76",
        "$GPGSA,A,3,10,07,05,02,29,04,08,13,,,,,1.72,1.03,1.38*0A",
        "$GPGSV,3,1,11,10,63,137,17,07,61,098,15,05,59,290,20,08,54,157,30*70",
        "$GPGSV,3,2,11,02,39,223,19,13,28,070,17,26,23,252,,04,14,186,14*79",
        "$GPGSV,3,3,11,29,09,301,24,16,09,020,,36,,,*76",
        "$GPRMC,092750.000,A,5321.6802,N,00630.3372,W,0.02,31.66,280511,,,A*43",
    ];

    let mut nmea = Nmea::new();
    for s in &sentences {
        let res = nmea.parse(s).unwrap();
        println!("test_parse res {:?}", res);
    }

    assert_eq!(coord_f64(&nmea.latitude().unwrap()), 53. + 21.6802 / 60.);
    assert_eq!(coord_f64(&nmea.longitude().unwrap()), -(6. + 30.3372 / 60.));
    assert_eq!(dec_f32(&nmea.altitude().unwrap()), 61.7);
}

fn check_parsing_lat_lon_in_gga(lat: f64, lon: f64) -> bool {
    let lat_min = (lat.abs() * 60.0) % 60.0;
    let lon_min = (lon.abs() * 60.0) % 60.0;
    let mut nmea = Nmea::new();
    let mut s = format!(
        "$GPGGA,092750.000,{lat_deg:02}{lat_min:09.6},{lat_dir},\
         {lon_deg:03}{lon_min:09.6},{lon_dir},1,8,1.03,61.7,M,55.2,M,,*",
        lat_deg = lat.abs().floor() as u8,
        lon_deg = lon.abs().floor() as u8,
        lat_min = lat_min,
        lon_min = lon_min,
        lat_dir = if lat.is_sign_positive() { 'N' } else { 'S' },
        lon_dir = if lon.is_sign_positive() { 'E' } else { 'W' },
    );
    let cs = checksum(&s.as_bytes()[1..s.len() - 1]);
    s.push_str(&format!("{:02X}", cs));
    nmea.parse(&s).unwrap();
    let (new_lat, new_lon) = (
        coord_f64(&nmea.latitude.unwrap()),
        coord_f64(&nmea.longitude.unwrap()),
    );
    const MAX_COOR_DIFF: f64 = 1e-7;
    (new_lat - lat).abs() < MAX_COOR_DIFF && (new_lon - lon).abs() < MAX_COOR_DIFF
}

#[test]
fn test_parsing_lat_lon_in_gga() {
    // regressions found by random testing of the original round trip,
    // kept explicit
    assert!(check_parsing_lat_lon_in_gga(0., 57.89528));
    assert!(check_parsing_lat_lon_in_gga(0., -43.33031));
    // a deterministic sweep over synthetic coordinates
    let mut state: u64 = 0x2545_f491_4f6c_dd1d;
    for _ in 0..500 {
        state = state.wrapping_mul(6364136223846793005).wrapping_add(1442695040888963407);
        let a = ((state >> 11) as f64) / ((1u64 << 53) as f64);
        state = state.wrapping_mul(6364136223846793005).wrapping_add(1442695040888963407);
        let b = ((state >> 11) as f64) / ((1u64 << 53) as f64);
        let lat = a * 180.0 - 90.0;
        let lon = b * 360.0 - 180.0;
        assert!(check_parsing_lat_lon_in_gga(lat, lon), "lat {} lon {}", lat, lon);
    }
}

#[test]
fn test_parse_for_fix() {
    {
        let mut nmea =
            Nmea::create_for_navigation(vec![SentenceType::RMC, SentenceType::GGA]).unwrap();
        let log = [
            (
                "$GPRMC,123308.2,A,5521.76474,N,03731.92553,E,000.48,071.9,090317,010.2,E,A*3B",
                FixType::Invalid,
                Some(NaiveTime::from_hms_milli(12, 33, 8, 200)),
            ),
            (
                "$GPGGA,123308.2,5521.76474,N,03731.92553,E,1,08,2.2,211.5,M,13.1,M,,*52",
                FixType::Gps,
                Some(NaiveTime::from_hms_milli(12, 33, 8, 200)),
            ),
            (
                "$GPVTG,071.9,T,061.7,M,000.48,N,0000.88,K,A*10",
                FixType::Invalid,
                Some(NaiveTime::from_hms_milli(12, 33, 8, 200)),
            ),
            (
                "$GPRMC,123308.3,A,5521.76474,N,03731.92553,E,000.51,071.9,090317,010.2,E,A*32",
                FixType::Invalid,
                Some(NaiveTime::from_hms_milli(12, 33, 8, 300)),
            ),
            (
                "$GPGGA,123308.3,5521.76474,N,03731.92553,E,1,08,2.2,211.5,M,13.1,M,,*53",
                FixType::Gps,
                Some(NaiveTime::from_hms_milli(12, 33, 8, 300)),
            ),
            (
                "$GPVTG,071.9,T,061.7,M,000.51,N,0000.94,K,A*15",
                FixType::Invalid,
                Some(NaiveTime::from_hms_milli(12, 33, 8, 300)),
            ),
            (
                "$GPRMC,123308.4,A,5521.76474,N,03731.92553,E,000.54,071.9,090317,010.2,E,A*30",
                FixType::Invalid,
                Some(NaiveTime::from_hms_milli(12, 33, 8, 400)),
            ),
            (
                "$GPGGA,123308.4,5521.76474,N,03731.92553,E,1,08,2.2,211.5,M,13.1,M,,*54",
                FixType::Gps,
                Some(NaiveTime::from_hms_milli(12, 33, 8, 400)),
            ),
            (
                "$GPVTG,071.9,T,061.7,M,000.54,N,0001.00,K,A*1C",
                FixType::Invalid,
                Some(NaiveTime::from_hms_milli(12, 33, 8, 400)),
            ),
            (
                "$GPRMC,123308.5,A,5521.76474,N,03731.92553,E,000.57,071.9,090317,010.2,E,A*32",
                FixType::Invalid,
                Some(NaiveTime::from_hms_milli(12, 33, 8, 500)),
            ),
            (
                "$GPGGA,123308.5,5521.76474,N,03731.92553,E,1,08,2.2,211.5,M,13.1,M,,*55",
                FixType::Gps,
                Some(NaiveTime::from_hms_milli(12, 33, 8, 500)),
            ),
            (
                "$GPVTG,071.9,T,061.7,M,000.57,N,0001.05,K,A*1A",
                FixType::Invalid,
                Some(NaiveTime::from_hms_milli(12, 33, 8, 500)),
            ),
            (
                "$GPRMC,123308.6,A,5521.76474,N,03731.92553,E,000.58,071.9,090317,010.2,E,A*3E",
                FixType::Invalid,
                Some(NaiveTime::from_hms_milli(12, 33, 8, 600)),
            ),
            (
                "$GPGGA,123308.6,5521.76474,N,03731.92553,E,1,08,2.2,211.5,M,13.1,M,,*56",
                FixType::Gps,
                Some(NaiveTime::from_hms_milli(12, 33, 8, 600)),
            ),
            (
                "$GPVTG,071.9,T,061.7,M,000.58,N,0001.08,K,A*18",
                FixType::Invalid,
                Some(NaiveTime::from_hms_milli(12, 33, 8, 600)),
            ),
            (
                "$GPRMC,123308.7,A,5521.76474,N,03731.92553,E,000.59,071.9,090317,010.2,E,A*3E",
                FixType::Invalid,
                Some(NaiveTime::from_hms_milli(12, 33, 8, 700)),
            ),
            (
                "$GPGGA,123308.7,5521.76474,N,03731.92553,E,1,08,2.2,211.5,M,13.1,M,,*57",
                FixType::Gps,
                Some(NaiveTime::from_hms_milli(12, 33, 8, 700)),
            ),
            (
                "$GPVTG,071.9,T,061.7,M,000.59,N,0001.09,K,A*18",
                FixType::Invalid,
                Some(NaiveTime::from_hms_milli(12, 33, 8, 700)),
            ),
        ];

        for (i, item) in log.iter().enumerate() {
            let res = nmea.parse_for_fix(item.0.as_bytes()).unwrap();
            println!("parse result({}): {:?}, {:?}", i, res, nmea.fix_time);
            assert_eq!((&res, &nmea.fix_time), (&item.1, &item.2));
        }
    }

    {
        let mut nmea =
            Nmea::create_for_navigation(vec![SentenceType::RMC, SentenceType::GGA]).unwrap();
        let log = [
            (
                "$GPRMC,123308.2,A,5521.76474,N,03731.92553,E,000.48,071.9,090317,010.2,E,A*3B",
                FixType::Invalid,
                Some(NaiveTime::from_hms_milli(12, 33, 8, 200)),
            ),
            (
                "$GPRMC,123308.3,A,5521.76474,N,03731.92553,E,000.51,071.9,090317,010.2,E,A*32",
                FixType::Invalid,
                Some(NaiveTime::from_hms_milli(12, 33, 8, 300)),
            ),
            (
                "$GPGGA,123308.3,5521.76474,N,03731.92553,E,1,08,2.2,211.5,M,13.1,M,,*53",
                FixType::Gps,
                Some(NaiveTime::from_hms_milli(12, 33, 8, 300)),
            ),
        ];

        for (i, item) in log.iter().enumerate() {
            let res = nmea.parse_for_fix(item.0.as_bytes()).unwrap();
            println!("parse result({}): {:?}, {:?}", i, res, nmea.fix_time);
            assert_eq!((&res, &nmea.fix_time), (&item.1, &item.2));
        }
    }
}

#[test]
fn test_some_reciever() {
    let lines = [
        "$GPRMC,171724.000,A,6847.2474,N,03245.8351,E,0.26,140.74,250317,,*02",
        "$GPGGA,171725.000,6847.2473,N,03245.8351,E,1,08,1.0,87.7,M,18.5,M,,0000*66",
        "$GPGSA,A,3,02,25,29,12,31,06,23,14,,,,,2.0,1.0,1.7*3A",
        "$GPRMC,171725.000,A,6847.2473,N,03245.8351,E,0.15,136.12,250317,,*05",
        "$GPGGA,171726.000,6847.2473,N,03245.8352,E,1,08,1.0,87.8,M,18.5,M,,0000*69",
        "$GPGSA,A,3,02,25,29,12,31,06,23,14,,,,,2.0,1.0,1.7*3A",
        "$GPRMC,171726.000,A,6847.2473,N,03245.8352,E,0.16,103.49,250317,,*0E",
        "$GPGGA,171727.000,6847.2474,N,03245.8353,E,1,08,1.0,87.9,M,18.5,M,,0000*6F",
        "$GPGSA,A,3,02,25,29,12,31,06,23,14,,,,,2.0,1.0,1.7*3A",
        "$GPRMC,171727.000,A,6847.2474,N,03245.8353,E,0.49,42.80,250317,,*32",
    ];
    let mut nmea = Nmea::create_for_navigation(vec![SentenceType::RMC, SentenceType::GGA]).unwrap();
    println!("start test");
    let mut nfixes = 0_usize;
    for line in &lines {
        match nmea.parse_for_fix(line.as_bytes()) {
            Ok(FixType::Invalid) => {
                println!("invalid");
                continue;
            }
            Err(msg) => {
                println!("update_gnss_info_nmea: parse_for_fix failed: {:?}", msg);
                continue;
            }
            Ok(_) => nfixes += 1,
        }
    }
    assert_eq!(nfixes, 3);
}

#[test]
fn test_create_for_navigation_rejects_empty_set() {
    assert!(Nmea::create_for_navigation(vec![]).is_err());
    assert!(Nmea::create_for_navigation(vec![SentenceType::RMC]).is_ok());
}

#[test]
fn test_new_tick_resets_accumulated_fields() {
    // a GGA carrying an altitude, then an RMC with a different time: the
    // new tick must clear the altitude before merging the RMC fields
    let mut nmea = Nmea::create_for_navigation(vec![SentenceType::RMC, SentenceType::GGA]).unwrap();
    nmea.parse_for_fix(
        b"$GPGGA,123308.2,5521.76474,N,03731.92553,E,1,08,2.2,211.5,M,13.1,M,,*52",
    )
    .unwrap();
    assert!(nmea.altitude().is_some());
    assert!(nmea.hdop().is_some());
    nmea.parse_for_fix(
        b"$GPRMC,123308.3,A,5521.76474,N,03731.92553,E,000.51,071.9,090317,010.2,E,A*32",
    )
    .unwrap();
    assert_eq!(nmea.altitude(), None);
    assert_eq!(nmea.hdop(), None);
    assert_eq!(nmea.fix_time, Some(NaiveTime::from_hms_milli(12, 33, 8, 300)));
    assert_eq!(nmea.last_fix_time, Some(NaiveTime::from_hms_milli(12, 33, 8, 300)));
}

#[test]
fn test_gsa_gsv_do_not_corrupt_fix_fields() {
    // GSA and GSV report no fix and leave the accumulated RMC/GGA fields
    // alone
    let mut nmea = Nmea::create_for_navigation(vec![SentenceType::RMC, SentenceType::GGA]).unwrap();
    nmea.parse_for_fix(
        b"$GPRMC,123308.2,A,5521.76474,N,03731.92553,E,000.48,071.9,090317,010.2,E,A*3B",
    )
    .unwrap();
    let time_before = nmea.fix_time;
    let lat_before = nmea.latitude;
    let res = nmea
        .parse_for_fix(b"$GPGSA,A,3,02,25,29,12,31,06,23,14,,,,,2.0,1.0,1.7*3A")
        .unwrap();
    assert_eq!(res, FixType::Invalid);
    let res = nmea
        .parse_for_fix(b"$GPGSV,3,1,11,10,63,137,17,07,61,098,15,05,59,290,20,08,54,157,30*70")
        .unwrap();
    assert_eq!(res, FixType::Invalid);
    assert_eq!(nmea.fix_time, time_before);
    assert_eq!(nmea.latitude, lat_before);
    // the fix completes on the GGA that closes the mandatory set
    let res = nmea
        .parse_for_fix(b"$GPGGA,123308.2,5521.76474,N,03731.92553,E,1,08,2.2,211.5,M,13.1,M,,*52")
        .unwrap();
    assert_eq!(res, FixType::Gps);
}

#[test]
fn test_unsupported_sentence_reports_no_fix() {
    let mut nmea = Nmea::create_for_navigation(vec![SentenceType::RMC]).unwrap();
    let body = "GNZDA,165118.00,13,05,2016,00,00";
    let line = format!("${}*{:02X}", body, checksum(body.as_bytes()));
    assert_eq!(nmea.parse_for_fix(line.as_bytes()), Ok(FixType::Invalid));
}
