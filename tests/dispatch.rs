use obd2::commands::{check_count, decode_dtc_lists, decode_vin};
use obd2::device::{self, Elm327, Obd2BaseDevice, Obd2Reader};
use obd2::{Dtc, DtcsInfo, Error, Obd2, OxygenSensorData, Scaled};

/// A device that answers every command with one fixed reply and records what it was sent.
struct Canned {
    reply: Result<Option<Vec<u8>>, device::Error>,
    sent: Vec<Vec<u8>>,
}

impl Obd2Reader for Canned {
    fn get_line(&mut self) -> Result<Option<Vec<u8>>, device::Error> {
        Ok(None)
    }

    fn get_response(&mut self) -> Result<Option<Vec<u8>>, device::Error> {
        match &self.reply {
            Ok(r) => Ok(r.clone()),
            Err(e) => Err(e.clone_error()),
        }
    }
}

impl Obd2BaseDevice for Canned {
    fn reset(&mut self) -> Result<(), device::Error> {
        Ok(())
    }

    fn send_cmd(&mut self, data: &[u8]) -> Result<(), device::Error> {
        self.sent.push(data.to_vec());
        Ok(())
    }
}

fn obd(reply: &str) -> Obd2<Canned> {
    Obd2::new(Canned { reply: Ok(Some(reply.as_bytes().to_vec())), sent: Vec::new() })
}

#[test]
fn rpm_round_trip() {
    assert_eq!(Elm327::command_text(&[0x01, 0x0C]), b"010C".to_vec());
    let mut o = obd("41 0C 1A F8\n");
    let rpm = o.get_rpm().unwrap();
    assert_eq!(rpm, vec![Scaled { value: 6904, divisor: 4 }]);
    assert_eq!(rpm[0].value as f64 / rpm[0].divisor as f64, 1726.0);
}

#[test]
fn coolant_temperature_subtracts_forty() {
    let mut o = obd("41 05 5A\n");
    assert_eq!(o.get_engine_coolant_temperature().unwrap(), vec![50]);
}

#[test]
fn vin_drops_first_byte() {
    let mut o = obd("49 02 01 41 42 43\n");
    assert_eq!(o.get_vin().unwrap(), "ABC");
}

#[test]
fn vin_from_multiline_reply() {
    let mut o = obd("014\n0: 49 02 01 31 47 31\n1: 4A 43 35 34 34 34\n2: 52 37 32\n");
    assert_eq!(o.get_vin().unwrap(), "1G1JC5444R72");
}

#[test]
fn vin_from_two_ecus_is_count_error() {
    let mut o = obd("49 02 01 41 42 43\n49 02 01 44 45 46\n");
    assert_eq!(o.get_vin(), Err(Error::IncorrectResponseLength("count", 1, 2)));
}

#[test]
fn vin_invalid_utf8() {
    let mut o = obd("49 02 01 FF FE\n");
    assert_eq!(o.get_vin(), Err(Error::InvalidText));
}

#[test]
fn vin_decoded_directly() {
    let r = decode_vin(vec![vec![0x01, b'W', b'V', b'W']]);
    assert_eq!(r.unwrap(), "WVW");
    assert_eq!(decode_vin(vec![vec![]]), Err(Error::IncorrectResponseLength("length", 1, 0)));
    assert_eq!(decode_vin(vec![]), Err(Error::IncorrectResponseLength("count", 1, 0)));
    assert_eq!(
        decode_vin(vec![vec![0x01, b'A'], vec![0x01, b'B']]),
        Err(Error::IncorrectResponseLength("count", 1, 2))
    );
}

#[test]
fn dtc_rendering() {
    assert_eq!(Dtc::from_u16(0x0301), Dtc::Powertrain(0x301));
    assert_eq!(Dtc::from_u16(0x0301).to_string(), "P301");
    assert_eq!(Dtc::from_u16(0x4301).to_string(), "C301");
    assert_eq!(Dtc::from_u16(0x8301).to_string(), "B301");
    assert_eq!(Dtc::from_u16(0xC001).to_string(), "U001");
    assert_eq!(Dtc::Powertrain(0x1234).to_string(), "P1234");
}

#[test]
fn freeze_frame_dtc() {
    let mut o = obd("41 02 43 01\n");
    assert_eq!(o.get_freeze_frame_dtc().unwrap(), vec![Dtc::Chassis(0x301)]);
}

#[test]
fn dtc_info_fields() {
    let mut o = obd("41 01 83 0D 12 34\n");
    let info = o.get_dtc_info().unwrap();
    assert_eq!(
        info,
        vec![DtcsInfo {
            malfunction_indicator_light: true,
            dtc_count: 3,
            common_test_availability: 0x05,
            is_compression_engine: true,
            specific_test_availability: 0x1234,
        }]
    );
}

#[test]
fn dtc_info_wrong_length() {
    let mut o = obd("41 01 83 0D 12\n");
    assert_eq!(o.get_dtc_info(), Err(Error::IncorrectResponseLength("length", 4, 3)));
}

#[test]
fn stored_dtcs() {
    let mut o = obd("43 00 01 00 41 00 81 00 C1 00\n");
    assert_eq!(
        o.get_dtcs().unwrap(),
        vec![vec![Dtc::Powertrain(0), Dtc::Chassis(0), Dtc::Body(0), Dtc::Network(0)]]
    );
    assert_eq!(o.canned_sent(), vec![vec![0x03]]);
}

#[test]
fn stored_dtcs_rejected_formats() {
    assert_eq!(decode_dtc_lists(vec![vec![0x01, 0x02, 0x03]]), Err(Error::InvalidDtcList));
    assert_eq!(decode_dtc_lists(vec![vec![0x00, 0x02]]), Err(Error::InvalidDtcList));
    assert_eq!(decode_dtc_lists(vec![vec![]]), Err(Error::InvalidDtcList));
    assert_eq!(decode_dtc_lists(vec![vec![0x00]]), Ok(vec![vec![]]));
}

#[test]
fn request_bytes_are_mode_and_pid() {
    let mut o = obd("41 0D 32\n");
    assert_eq!(o.get_speed().unwrap(), vec![50]);
    assert_eq!(o.canned_sent(), vec![vec![0x01, 0x0D]]);
}

#[test]
fn two_ecus_answer() {
    let mut o = obd("41 0D 32\n41 0D 33\n");
    assert_eq!(o.get_speed().unwrap(), vec![50, 51]);
}

#[test]
fn fewer_responders_than_expected() {
    assert_eq!(check_count(vec![], 1), Err(Error::IncorrectResponseLength("count", 1, 0)));
    assert_eq!(
        check_count(vec![vec![1]], 2),
        Err(Error::IncorrectResponseLength("count", 2, 1))
    );
    let mut o = obd("41 0C 1A F8\n");
    assert_eq!(
        o.obd_command_cnt_len(0x01, 0x0C, 2, 2),
        Err(Error::IncorrectResponseLength("count", 2, 1))
    );
    let mut o = obd("41 0C 1A F8\n");
    assert_eq!(o.obd_command_cnt_len(0x01, 0x0C, 1, 2), Ok(vec![vec![0x1A, 0xF8]]));
}

#[test]
fn empty_ecu_payload_is_shape_error() {
    let mut o = obd("41 0C\n");
    assert_eq!(o.get_rpm(), Err(Error::IncorrectResponseLength("length", 2, 0)));
    let mut o = obd("41 0D\n");
    assert_eq!(o.get_speed(), Err(Error::IncorrectResponseLength("length", 1, 0)));
}

#[test]
fn empty_reply_is_no_response_lines() {
    let mut o = obd("");
    assert_eq!(o.get_rpm(), Err(Error::NoEcuResponses));
    let mut o = obd("\n \n");
    assert_eq!(o.obd_command(0x01, 0x0C), Err(Error::NoEcuResponses));
}

#[test]
fn no_reply_in_time() {
    let mut o = Obd2::new(Canned { reply: Ok(None), sent: Vec::new() });
    assert_eq!(o.get_rpm(), Err(Error::NoResponse));
}

#[test]
fn device_error_is_passed_on() {
    let e = device::Error::Transport("unplugged".to_string());
    let mut o = Obd2::new(Canned { reply: Err(e.clone_error()), sent: Vec::new() });
    assert_eq!(o.get_rpm(), Err(Error::Device(obd2::DeviceError(e))));
}

#[test]
fn malformed_token() {
    let mut o = obd("41 0C 1G F8\n");
    assert_eq!(o.get_rpm(), Err(Error::InvalidHex));
    let mut o = obd("41 0C 1AF8\n");
    assert_eq!(o.get_rpm(), Err(Error::InvalidHex));
}

#[test]
fn envelope_mismatch() {
    let mut o = obd("42 0C 1A F8\n");
    assert_eq!(o.get_rpm(), Err(Error::UnexpectedEnvelope));
    let mut o = obd("41 0D 1A F8\n");
    assert_eq!(o.get_rpm(), Err(Error::UnexpectedEnvelope));
    let mut o = obd("41\n");
    assert_eq!(o.get_rpm(), Err(Error::UnexpectedEnvelope));
    let mut o = obd("44 00\n");
    assert_eq!(o.get_dtcs(), Err(Error::UnexpectedEnvelope));
}

#[test]
fn multiline_in_order() {
    let r = Obd2::<Canned>::parse_command_multiline(b"0: 49 02\n1: 01 41\n2: 42 43\n").unwrap();
    let expected: Vec<Vec<u8>> =
        vec![b"49".to_vec(), b"02".to_vec(), b"01".to_vec(), b"41".to_vec(), b"42".to_vec(), b"43".to_vec()];
    assert_eq!(r, expected);
    assert_eq!(
        Obd2::<Canned>::decode_reply(b"0: 49 02\n1: 01 41\n2: 42 43\n").unwrap(),
        vec![vec![0x49, 0x02, 0x01, 0x41, 0x42, 0x43]]
    );
}

#[test]
fn multiline_out_of_order() {
    assert_eq!(
        Obd2::<Canned>::parse_command_multiline(b"0: 49 02\n2: 42 43\n1: 01 41\n"),
        Err(Error::LineOutOfOrder)
    );
    assert_eq!(
        Obd2::<Canned>::decode_reply(b"0: 49 02\n2: 42 43\n1: 01 41\n"),
        Err(Error::LineOutOfOrder)
    );
}

#[test]
fn multiline_index_wraps() {
    let mut text = String::new();
    for i in 0..18u32 {
        text.push_str(&format!("{:X}: {:02X}\n", i % 16, i));
    }
    let r = Obd2::<Canned>::decode_reply(text.as_bytes()).unwrap();
    assert_eq!(r, vec![(0..18u8).collect::<Vec<u8>>()]);
}

#[test]
fn single_line_tokens() {
    let r = Obd2::<Canned>::parse_command(b"41 0C  1A F8\n\n41 0C 00 00").unwrap();
    assert_eq!(r.len(), 2);
    assert_eq!(r[0], vec![b"41".to_vec(), b"0C".to_vec(), b"1A".to_vec(), b"F8".to_vec()]);
    assert_eq!(Obd2::<Canned>::parse_command(b" \n\n"), Err(Error::NoEcuResponses));
}

#[test]
fn lower_case_hex_accepted() {
    assert_eq!(Obd2::<Canned>::decode_reply(b"41 0c 1a f8"), Ok(vec![vec![0x41, 0x0C, 0x1A, 0xF8]]));
}

#[test]
fn scaled_signals() {
    let mut o = obd("41 0E 90\n");
    assert_eq!(o.get_timing_advance().unwrap(), vec![Scaled { value: 16, divisor: 2 }]);
    let mut o = obd("41 06 80\n");
    assert_eq!(o.get_short_term_fuel_trim_1().unwrap(), vec![Scaled { value: 0, divisor: 128 }]);
    let mut o = obd("41 10 01 F4\n");
    assert_eq!(o.get_air_flow_rate().unwrap(), vec![Scaled { value: 500, divisor: 100 }]);
    let mut o = obd("41 0A 10\n");
    assert_eq!(o.get_fuel_pressure().unwrap(), vec![48]);
    let mut o = obd("41 0F 00\n");
    assert_eq!(o.get_intake_air_temperature().unwrap(), vec![-40]);
}

#[test]
fn oxygen_sensor_reading() {
    let mut o = obd("41 14 A0 7F\n");
    assert_eq!(
        o.get_oxygen_sensor_1().unwrap(),
        vec![OxygenSensorData {
            voltage: Scaled { value: 800, divisor: 1000 },
            shrft: Scaled { value: -1, divisor: 128 },
        }]
    );
}

#[test]
fn wide_numbers() {
    let mut o = obd("41 00 BE 1F A8 13\n");
    assert_eq!(o.get_service_1_pid_support_1().unwrap(), vec![0xBE1FA813]);
    let mut o = obd("41 1F 01 02\n");
    assert_eq!(o.get_run_time().unwrap(), vec![0x0102]);
    let mut o = obd("41 03 02 00\n");
    assert_eq!(o.get_fuel_system_status().unwrap(), vec![vec![0x02, 0x00]]);
}

trait SentLog {
    fn canned_sent(&self) -> Vec<Vec<u8>>;
}

impl SentLog for Obd2<Canned> {
    fn canned_sent(&self) -> Vec<Vec<u8>> {
        self.device().sent.clone()
    }
}

trait CloneError {
    fn clone_error(&self) -> device::Error;
}

impl CloneError for device::Error {
    fn clone_error(&self) -> device::Error {
        match self {
            device::Error::Transport(s) => device::Error::Transport(s.clone()),
            device::Error::EchoMismatch { sent, received } => {
                device::Error::EchoMismatch { sent: sent.clone(), received: received.clone() }
            }
        }
    }
}

#[test]
fn dtc_from_u16_conversion() {
    let d: Dtc = 0x8123u16.into();
    assert_eq!(d, Dtc::Body(0x123));
    assert_eq!(Dtc::from(0x3FFFu16), Dtc::Powertrain(0x3FFF));
}

#[test]
fn mode_and_pid_requests_sent_once_each() {
    let mut o = obd("41 0C 1A F8\n");
    assert_eq!(o.obd_command(0x01, 0x0C), Ok(vec![vec![0x1A, 0xF8]]));
    assert_eq!(o.canned_sent(), vec![vec![0x01, 0x0C]]);
    assert_eq!(Elm327::command_text(&o.canned_sent()[0]), b"010C".to_vec());
    let mut o = obd("43 00\n");
    assert_eq!(o.obd_mode_command(0x03), Ok(vec![vec![0x00]]));
    assert_eq!(o.canned_sent(), vec![vec![0x03]]);
}
