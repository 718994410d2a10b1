use rusthl7::fields::Field;
use rusthl7::segments::generic::GenericSegment;
use rusthl7::segments::msh::MshSegment;
use rusthl7::segments::Segment;
use rusthl7::separators::Separators;
use rusthl7::Hl7ParseError;

#[test]
fn ensure_fields_are_added() -> Result<(), Hl7ParseError> {
    let hl7 = "SEG|field 1|field 2|field 3";
    let delims = Separators::default();

    if let Segment::Generic(seg) = Segment::parse(hl7, &delims)? {
        assert_eq!(seg.fields.len(), 4);
    } else {
        assert!(false);
    }
    Ok(())
}

#[test]
fn ensure_msh_is_returned() -> Result<(), Hl7ParseError> {
    let hl7 = "MSH|^~\\&|GHH LAB|ELAB-3|GHH OE|BLDG4|200202150930||ORU^R01|CNTRL-3456|P|2.4";
    let delims = Separators::default();

    if let Segment::MSH(_) = Segment::parse(hl7, &delims)? {
        //all good, fall through to ok
    } else {
        assert!(false);
    }
    Ok(())
}

#[test]
fn ensure_msh_fields_are_populated() -> Result<(), Hl7ParseError> {
    let hl7 = "MSH|^~\\&|GHH LAB|ELAB-3|GHH OE|BLDG4|200202150930||ORU^R01|CNTRL-3456|P|2.4";
    let delims = Separators::default();

    let msh = MshSegment::parse(hl7, &delims)?;

    assert_eq!(msh.msh_1_field_separator, '|');

    let msh3 = msh
        .msh_3_sending_application
        .ok_or(Hl7ParseError::Generic("Parse Error".to_string()))?;
    assert_eq!(msh3.value(), "GHH LAB");

    let msh4 = msh
        .msh_4_sending_facility
        .ok_or(Hl7ParseError::Generic("Parse Error".to_string()))?;
    assert_eq!(msh4.value(), "ELAB-3");

    let msh5 = msh
        .msh_5_receiving_application
        .ok_or(Hl7ParseError::Generic("Parse Error".to_string()))?;
    assert_eq!(msh5.value(), "GHH OE");

    let msh6 = msh
        .msh_6_receiving_facility
        .ok_or(Hl7ParseError::Generic("Parse Error".to_string()))?;
    assert_eq!(msh6.value(), "BLDG4");

    assert_eq!(msh.msh_8_security, None); //blank field check
    assert_eq!(msh.msh_12_version_id.value(), "2.4"); //we got to the end ok
    Ok(())
}

#[test]
fn ensure_msh_converts_to_generic() -> Result<(), Hl7ParseError> {
    let hl7 = "MSH|^~\\&|GHH LAB|ELAB-3|GHH OE|BLDG4|200202150930||ORU^R01|CNTRL-3456|P|2.4";
    let delims = Separators::default();

    let msh = MshSegment::parse(hl7, &delims)?;
    let gen = msh.as_generic().unwrap();
    assert_eq!("ELAB-3", gen["F3"]);
    Ok(())
}

#[test]
fn ensure_msh_clones_correctly() -> Result<(), Hl7ParseError> {
    let hl7 = "MSH|^~\\&|GHH LAB|ELAB-3|GHH OE|BLDG4|200202150930||ORU^R01|CNTRL-3456|P|2.4";
    let delims = Separators::default();

    let msh = MshSegment::parse(hl7, &delims)?;
    let dolly = msh.clone();
    assert_eq!(msh, dolly);
    Ok(())
}

const HEADER: &str = "MSH|^~\\&|GHH LAB|ELAB-3|GHH OE|BLDG4|200202150930||ORU^R01|CNTRL-3456|P|2.4";

#[test]
fn msh_keeps_the_delimiters_it_was_parsed_with() {
    let delims = Separators::default();
    let msh = MshSegment::parse(HEADER, &delims).unwrap();
    assert_eq!(msh.msh_1_field_separator, '|');
    assert_eq!(msh.msh_2_encoding_characters, delims);
    assert_eq!(msh.source, HEADER);
    assert_eq!(msh.as_str(), HEADER);
    assert_eq!(msh.to_string(), HEADER);
}

#[test]
fn msh_reads_every_field_by_position() {
    let line = "MSH|^~\\&|f3|f4|f5|f6|f7|f8|f9|f10|f11|f12|f13|f14|f15|f16|f17|f18|f19|f20";
    let delims = Separators::default();
    let msh = MshSegment::parse(line, &delims).unwrap();
    assert_eq!(msh.msh_3_sending_application.as_ref().unwrap().value(), "f3");
    assert_eq!(msh.msh_4_sending_facility.as_ref().unwrap().value(), "f4");
    assert_eq!(msh.msh_5_receiving_application.as_ref().unwrap().value(), "f5");
    assert_eq!(msh.msh_6_receiving_facility.as_ref().unwrap().value(), "f6");
    assert_eq!(msh.msh_7_date_time_of_message.value(), "f7");
    assert_eq!(msh.msh_8_security.as_ref().unwrap().value(), "f8");
    assert_eq!(msh.msh_9_message_type.value(), "f9");
    assert_eq!(msh.msh_10_message_control_id.value(), "f10");
    assert_eq!(msh.msh_11_processing_id.value(), "f11");
    assert_eq!(msh.msh_12_version_id.value(), "f12");
    assert_eq!(msh.msh_13_sequence_number.as_ref().unwrap().value(), "f13");
    assert_eq!(msh.msh_14_continuation_pointer.as_ref().unwrap().value(), "f14");
    assert_eq!(msh.msh_15_accept_acknowledgment_type.as_ref().unwrap().value(), "f15");
    assert_eq!(msh.msh_16_application_acknowledgment_type.as_ref().unwrap().value(), "f16");
    assert_eq!(msh.msh_17_country_code.as_ref().unwrap().value(), "f17");
    assert_eq!(msh.msh_18_character_set.as_ref().unwrap().value(), "f18");
    assert_eq!(msh.msh_19_principal_language_of_message.as_ref().unwrap().value(), "f19");
    for n in 3..20 {
        assert_eq!(msh[n], format!("f{}", n));
    }
    assert_eq!(msh[0], "");
    assert_eq!(msh[1], "");
    assert_eq!(msh[2], "");
    assert_eq!(msh[20], "");
    assert_eq!(msh[usize::MAX], "");
}

#[test]
fn msh_index_of_an_absent_field_is_the_empty_text() {
    let delims = Separators::default();
    let msh = MshSegment::parse(HEADER, &delims).unwrap();
    assert_eq!(msh[3], "GHH LAB");
    assert_eq!(msh[4], "ELAB-3");
    assert_eq!(msh[7], "200202150930");
    assert_eq!(msh[8], "");
    assert_eq!(msh[9], "ORU^R01");
    assert_eq!(msh[12], "2.4");
    assert_eq!(msh[13], "");
    assert_eq!(msh[19], "");
}

#[test]
fn msh_fields_are_split_like_any_field() {
    let delims = Separators::default();
    let msh = MshSegment::parse(HEADER, &delims).unwrap();
    assert_eq!(msh.msh_9_message_type[(0, 0)], "ORU");
    assert_eq!(msh.msh_9_message_type[(0, 1)], "R01");
    assert_eq!(msh.msh_9_message_type.query("R1.C2"), "R01");
}

#[test]
fn msh_takes_an_empty_mandatory_field() {
    let line = "MSH|^~\\&|||||||||||";
    let delims = Separators::default();
    let msh = MshSegment::parse(line, &delims).unwrap();
    assert_eq!(msh.msh_3_sending_application, None);
    assert_eq!(msh.msh_7_date_time_of_message.value(), "");
    assert_eq!(msh.msh_12_version_id.value(), "");
    assert_eq!(msh.msh_13_sequence_number, None);
}

#[test]
fn msh_without_a_mandatory_field_is_an_error() {
    let delims = Separators::default();
    let eleven = "MSH|^~\\&|GHH LAB|ELAB-3|GHH OE|BLDG4|200202150930||ORU^R01|CNTRL-3456|P";
    assert_eq!(
        MshSegment::parse(eleven, &delims),
        Err(Hl7ParseError::MissingRequiredValue())
    );
    assert_eq!(
        MshSegment::parse("MSH|^~\\&|a|b|c|d", &delims),
        Err(Hl7ParseError::MissingRequiredValue())
    );
    assert_eq!(MshSegment::parse("MSH", &delims), Err(Hl7ParseError::MissingRequiredValue()));
    assert_eq!(Segment::parse(eleven, &delims), Err(Hl7ParseError::MissingRequiredValue()));
}

#[test]
fn msh_of_a_line_that_is_no_header_is_an_error() {
    let delims = Separators::default();
    let expected = Err(Hl7ParseError::Generic(String::from("header segment must start with MSH")));
    assert_eq!(MshSegment::parse("PID|||555-44-4444", &delims), expected);
    assert_eq!(MshSegment::parse("", &delims), expected);
    assert_eq!(MshSegment::parse("MSHX|^~\\&|a|b|c|d|e|f|g|h|i|j", &delims), expected);
    assert_eq!(MshSegment::parse("msh|^~\\&|a|b|c|d|e|f|g|h|i|j", &delims), expected);
}

#[test]
fn msh_with_delimiters_of_its_own() {
    let line = "MSH#:*!/#LAB#ELAB#OE#BLDG#2002##ORU:R01#CNTRL#P#2.4";
    let delims = Separators::resolve(Some(line));
    let msh = MshSegment::parse(line, &delims).unwrap();
    assert_eq!(msh.msh_1_field_separator, '#');
    assert_eq!(msh.msh_2_encoding_characters.component, ':');
    assert_eq!(msh[3], "LAB");
    assert_eq!(msh.msh_8_security, None);
    assert_eq!(msh.msh_9_message_type[(0, 1)], "R01");
    assert_eq!(msh[12], "2.4");
}

#[test]
fn msh_clone_parses_each_field_anew() {
    let delims = Separators::default();
    let msh = MshSegment::parse(HEADER, &delims).unwrap();
    let dolly = msh.clone();
    assert_eq!(dolly.source.as_ptr(), msh.source.as_ptr());
    assert_eq!(dolly.msh_9_message_type.components, vec![vec!["ORU", "R01"]]);
    assert_eq!(dolly.msh_8_security, None);
    assert_eq!(dolly[4], "ELAB-3");
}

#[test]
fn msh_as_generic_counts_the_code_as_field_zero() {
    let delims = Separators::default();
    let msh = MshSegment::parse(HEADER, &delims).unwrap();
    let gen = msh.as_generic().unwrap();
    assert_eq!(gen.fields.len(), 12);
    assert_eq!(gen[0], "MSH");
    assert_eq!(gen[1], "^~\\&");
    assert_eq!(gen[2], "GHH LAB");
    assert_eq!(gen[11], "2.4");
    assert_eq!(gen["F0"], "MSH");
    assert_eq!(gen["F11"], "2.4");
}

#[test]
fn generic_segment_has_at_least_one_field() {
    let delims = Separators::default();
    let seg = GenericSegment::parse("", &delims).unwrap();
    assert_eq!(seg.fields.len(), 1);
    assert_eq!(seg.fields[0].value(), "");
    let seg = GenericSegment::parse("PID", &delims).unwrap();
    assert_eq!(seg.fields.len(), 1);
    assert_eq!(seg[0], "PID");
}

#[test]
fn generic_segment_keeps_the_order_of_the_line() {
    let delims = Separators::default();
    let seg = GenericSegment::parse("SEG|field 1|field 2|field 3", &delims).unwrap();
    let texts: Vec<&str> = seg.fields.iter().map(Field::value).collect();
    assert_eq!(texts, vec!["SEG", "field 1", "field 2", "field 3"]);
}

#[test]
fn generic_index_out_of_range_is_the_empty_text() {
    let delims = Separators::default();
    let seg = GenericSegment::parse("SEG|field 1|field 2|field 3", &delims).unwrap();
    assert_eq!(seg[3], "field 3");
    assert_eq!(seg[4], "");
    assert_eq!(seg[usize::MAX], "");
}

#[test]
fn generic_query_goes_down_to_components() {
    let delims = Separators::default();
    let line = "OBR|1|845439^GHH OE|1045813^GHH LAB~second^repeat|15545^GLUCOSE";
    let seg = GenericSegment::parse(line, &delims).unwrap();
    assert_eq!(seg.query("F0"), "OBR");
    assert_eq!(seg.query("F2"), "845439^GHH OE");
    assert_eq!(seg.query("F3.R1"), "1045813^GHH LAB");
    assert_eq!(seg.query("F3.R2"), "second^repeat");
    assert_eq!(seg.query("F3.R2.C2"), "repeat");
    assert_eq!(seg.query("F4.R1.C2"), "GLUCOSE");
    assert_eq!(seg["F3.R2.C1"], "second");
}

#[test]
fn generic_query_of_what_is_not_there_is_the_empty_text() {
    let delims = Separators::default();
    let line = "OBR|1|845439^GHH OE|1045813^GHH LAB~second^repeat|15545^GLUCOSE";
    let seg = GenericSegment::parse(line, &delims).unwrap();
    assert_eq!(seg.query("F5"), "");
    assert_eq!(seg.query("F"), "");
    assert_eq!(seg.query(""), "");
    assert_eq!(seg.query("F3.R0"), "");
    assert_eq!(seg.query("F3.R3"), "");
    assert_eq!(seg.query("F3.R1.C3"), "");
    assert_eq!(seg.query("F3.R1.C1.S1"), "");
    assert_eq!(seg.query("F99999999999999999999999"), "");
}

#[test]
fn segment_is_chosen_by_its_first_field() {
    let delims = Separators::default();
    assert!(matches!(Segment::parse(HEADER, &delims), Ok(Segment::MSH(_))));
    assert!(matches!(Segment::parse("PID|||555-44-4444", &delims), Ok(Segment::Generic(_))));
    assert!(matches!(Segment::parse("MSHX|a", &delims), Ok(Segment::Generic(_))));
    assert!(matches!(Segment::parse("MS|H", &delims), Ok(Segment::Generic(_))));
    assert!(matches!(Segment::parse("", &delims), Ok(Segment::Generic(_))));
}

#[test]
fn segment_written_out_is_the_line() {
    let delims = Separators::default();
    let lines = [
        HEADER,
        "SEG|field 1|field 2|field 3",
        "PID|||555-44-4444||EVERYWOMAN^EVE^E^^^^L|JONES|19620320|F|||",
        "",
        "|",
        "OBX|1|SN|1554-5^GLUCOSE^POST 12H CFST:MCNC:PT:SER/PLAS:QN||^182|mg/dl|70_105|H|||F",
    ];
    for line in lines {
        let segment = Segment::parse(line, &delims).unwrap();
        assert_eq!(segment.to_string(&delims), line);
    }
}

#[test]
fn generic_segment_is_written_with_the_delimiters_given() {
    let delims = Separators::default();
    let other = Separators::resolve(Some("MSH#:*!/"));
    let segment = Segment::parse("SEG|a^b|c", &delims).unwrap();
    assert_eq!(segment.to_string(&other), "SEG#a^b#c");
    let generic = GenericSegment::parse("SEG|a^b|c", &delims).unwrap();
    assert_eq!(generic.to_string(&delims), "SEG|a^b|c");
    assert_eq!(generic.to_string(&other), "SEG#a^b#c");
}
