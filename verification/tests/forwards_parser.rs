use rusthl7::forwards_parser::{
    opens_with, Field2, ForwardsMessageParser, Message, Message2, Repeat2, Segment2,
};
use rusthl7::separators::Separators;

fn sample() -> String {
    "MSH|^~\\&|GHH LAB|ELAB-3|GHH OE|BLDG4|200202150930||ORU^R01|CNTRL-3456|P|2.4\rPID|||555-44-4444||EVERYWOMAN^EVE^E^^^^L|JONES|19620320|F|||153 FERNWOOD DR.^^STATESVILLE^OH^35292||(206)3345232|(206)752-121||||AC555444444||67-A4335^OH^20030520\rOBR|1|845439^GHH OE|1045813^GHH LAB|15545^GLUCOSE|||200202150730|||||||||555-55-5555^PRIMARY^PATRICIA P^^^^MD^^|||||||||F||||||444-44-4444^HIPPOCRATES^HOWARD H^^^^MD\rOBX|1|SN|1554-5^GLUCOSE^POST 12H CFST:MCNC:PT:SER/PLAS:QN||^182|mg/dl|70_105|H|||F\r".to_string()
}

fn tree(input: &String) -> Message<'_> {
    let mut parser = ForwardsMessageParser {};
    parser.parse_message(input)
}

fn owned(input: &str) -> Message2 {
    Message2 { input: input.to_string() }
}

#[test]
fn patient_id_is_field_three_in_the_tree() {
    let input = "PID|||555-44-4444||EVERYWOMAN^EVE^E^^^^L|JONES|19620320|F|||".to_string();
    assert_eq!(tree(&input).get_field("PID", 3), "555-44-4444");
}

#[test]
fn patient_id_is_field_three_in_the_text() {
    let input = "PID|||555-44-4444||EVERYWOMAN^EVE^E^^^^L|JONES|19620320|F|||";
    assert_eq!(owned(input).get_field("PID", 3), "555-44-4444");
}

#[test]
fn patient_id_is_field_three_of_the_sample() {
    let input = sample();
    assert_eq!(tree(&input).get_field("PID", 3), "555-44-4444");
    assert_eq!(owned(&input).get_field("PID", 3), "555-44-4444");
}

#[test]
fn tree_has_a_segment_for_every_line() {
    let input = sample();
    let message = tree(&input);
    assert_eq!(message.delims, Separators::default());
    assert_eq!(message.segments.len(), 4);
    let lines: Vec<&str> = input.split('\r').collect();
    for (segment, line) in message.segments.iter().zip(lines) {
        assert_eq!(segment.source, line);
        assert_eq!(segment.fields.len(), line.split('|').count());
    }
    assert_eq!(message.segments[3].fields.len(), 12);
}

#[test]
fn tree_keeps_a_repeat_whole_as_its_one_component() {
    let input = "OBX|a^b~c&d|e\r".to_string();
    let message = tree(&input);
    let expected = Message {
        delims: Separators::default(),
        segments: vec![Segment2 {
            source: "OBX|a^b~c&d|e",
            fields: vec![
                Field2 { repeats: vec![Repeat2 { components: vec!["OBX"] }] },
                Field2 {
                    repeats: vec![
                        Repeat2 { components: vec!["a^b"] },
                        Repeat2 { components: vec!["c&d"] },
                    ],
                },
                Field2 { repeats: vec![Repeat2 { components: vec!["e"] }] },
            ],
        }],
    };
    assert_eq!(message, expected);
}

#[test]
fn tree_takes_a_last_line_without_terminator() {
    let input = "MSA|AA|MSGID12349876".to_string();
    let message = tree(&input);
    assert_eq!(message.segments.len(), 1);
    assert_eq!(message.segments[0].source, "MSA|AA|MSGID12349876");
    assert_eq!(message.get_field("MSA", 2), "MSGID12349876");

    let input = "MSH|^~\\&|CATH|StJohn|AcmeHIS|StJohn|20061019172719||ACK^O01|MSGID12349876|P|2.3\rMSA|AA|MSGID12349876".to_string();
    let message = tree(&input);
    assert_eq!(message.segments.len(), 2);
    assert_eq!(message.get_field("MSA", 1), "AA");
}

#[test]
fn tree_of_empty_text_has_no_segment() {
    let input = String::new();
    let message = tree(&input);
    assert_eq!(message.segments.len(), 0);
    assert_eq!(message.get_field("PID", 0), "");
}

#[test]
fn tree_keeps_empty_lines_between_terminators() {
    let input = "\r\rPID|1\r".to_string();
    let message = tree(&input);
    assert_eq!(message.segments.len(), 3);
    assert_eq!(message.segments[0].source, "");
    assert_eq!(message.segments[0].fields.len(), 1);
    assert_eq!(message.segments[0].fields[0].repeats.len(), 1);
    assert_eq!(message.segments[0].fields[0].repeats[0].components, vec![""]);
    assert_eq!(message.segments[2].source, "PID|1");
}

#[test]
fn tree_spans_borrow_from_the_text() {
    let input = "PID|ab~cd\rOBX|e".to_string();
    let message = tree(&input);
    let base = input.as_ptr() as usize;
    let repeat = message.segments[0].fields[1].repeats[1].components[0];
    assert_eq!(repeat, "cd");
    assert_eq!(repeat.as_ptr() as usize, base + 7);
    assert_eq!(message.segments[1].source.as_ptr() as usize, base + 10);
}

#[test]
fn both_lookups_answer_alike() {
    let inputs = [
        sample(),
        String::new(),
        "\r".to_string(),
        "PID".to_string(),
        "PI".to_string(),
        "PIDX|a|b\rPID|c|d".to_string(),
        "OBX|1\rOBX|2~3|4\r\rOBX".to_string(),
        "MSH#:*!/#LAB#ELAB#OE#BLDG#2002##ORU:R01#CNTRL#P#2.4\rPID#a*b#c|d~e#f\r".to_string(),
        "ZZZ|né~ü|日本語\rPID|ß".to_string(),
        "PI|D|x\rPI~|y".to_string(),
    ];
    let codes = ["MSH", "PID", "OBR", "OBX", "ZZZ", "PI", "PIDX", "", "PI|", "PI~", "PI#"];
    for input in inputs.iter() {
        let message = tree(input);
        let text = owned(input);
        for code in codes {
            for field in 0..14 {
                assert_eq!(message.get_field(code, field), text.get_field(code, field));
            }
        }
    }
}

#[test]
fn get_field_counts_the_code_as_field_zero() {
    let input = sample();
    let message = tree(&input);
    let text = owned(&input);
    assert_eq!(message.get_field("PID", 0), "PID");
    assert_eq!(text.get_field("PID", 0), "PID");
    assert_eq!(message.get_field("MSH", 1), "^~\\&");
    assert_eq!(text.get_field("MSH", 1), "^~\\&");
    assert_eq!(message.get_field("MSH", 3), "ELAB-3");
    assert_eq!(text.get_field("MSH", 3), "ELAB-3");
    assert_eq!(message.get_field("OBR", 7), "200202150730");
    assert_eq!(text.get_field("OBR", 7), "200202150730");
    assert_eq!(message.get_field("OBX", 3), "1554-5^GLUCOSE^POST 12H CFST:MCNC:PT:SER/PLAS:QN");
    assert_eq!(text.get_field("OBX", 3), "1554-5^GLUCOSE^POST 12H CFST:MCNC:PT:SER/PLAS:QN");
}

#[test]
fn get_field_takes_the_first_line_with_the_code() {
    let input = "OBX|1|first\rOBX|2|second\r".to_string();
    assert_eq!(tree(&input).get_field("OBX", 2), "first");
    assert_eq!(owned(&input).get_field("OBX", 2), "first");
}

#[test]
fn get_field_of_what_is_not_there_is_the_empty_text() {
    let input = sample();
    let message = tree(&input);
    let text = owned(&input);
    assert_eq!(message.get_field("ZZZ", 0), "");
    assert_eq!(text.get_field("ZZZ", 0), "");
    assert_eq!(message.get_field("OBX", 12), "");
    assert_eq!(text.get_field("OBX", 12), "");
    assert_eq!(message.get_field("OBX", usize::MAX), "");
    assert_eq!(text.get_field("OBX", usize::MAX), "");
    assert_eq!(message.get_field("PI", 0), "");
    assert_eq!(text.get_field("PI", 0), "");
    assert_eq!(message.get_field("PIDX", 0), "");
    assert_eq!(text.get_field("PIDX", 0), "");
}

#[test]
fn get_field_reads_the_first_three_characters_of_a_line() {
    let input = "PIDX|a|b\rPID|c|d".to_string();
    assert_eq!(tree(&input).get_field("PID", 1), "a");
    assert_eq!(owned(&input).get_field("PID", 1), "a");
    assert_eq!(tree(&input).get_field("PID", 0), "PIDX");
    assert_eq!(owned(&input).get_field("PID", 0), "PIDX");
}

#[test]
fn message_uses_the_delimiters_that_its_header_declares() {
    let input = "MSH#:*!/#LAB#ELAB#OE#BLDG#2002##ORU:R01#CNTRL#P#2.4\rPID#a*b#c|d~e#f\r".to_string();
    let message = tree(&input);
    assert_eq!(message.delims.field, '#');
    assert_eq!(message.delims.repeat, '*');
    assert_eq!(message.segments[1].fields.len(), 4);
    assert_eq!(message.segments[1].fields[1].repeats.len(), 2);
    assert_eq!(message.segments[1].fields[1].repeats[1].components, vec!["b"]);
    assert_eq!(message.get_field("PID", 1), "a*b");
    assert_eq!(message.get_field("PID", 2), "c|d~e");
    let text = owned(&input);
    assert_eq!(text.get_field("PID", 1), "a*b");
    assert_eq!(text.get_field("PID", 2), "c|d~e");
    assert_eq!(text.get_field("MSH", 8), "ORU:R01");
}

#[test]
fn repeat_is_written_with_the_standard_separator() {
    let repeat = Repeat2 { components: vec!["a", "b", "c"] };
    assert_eq!(repeat.get_as_string(), "a^b^c");
    let repeat = Repeat2 { components: vec!["a"] };
    assert_eq!(repeat.get_as_string(), "a");
    let repeat = Repeat2 { components: vec![] };
    assert_eq!(repeat.get_as_string(), "");
    let repeat = Repeat2 { components: vec!["", ""] };
    assert_eq!(repeat.get_as_string(), "^");
}

#[test]
fn field_is_written_with_the_standard_separators() {
    let field = Field2 {
        repeats: vec![
            Repeat2 { components: vec!["a", "b"] },
            Repeat2 { components: vec!["c"] },
            Repeat2 { components: vec![] },
        ],
    };
    assert_eq!(field.get_all_as_string(), "a^b~c~");
    let field = Field2 { repeats: vec![] };
    assert_eq!(field.get_all_as_string(), "");
}

#[test]
fn field_is_written_with_the_separators_given() {
    let other = Separators::resolve(Some("MSH#:*!/"));
    let field = Field2 {
        repeats: vec![Repeat2 { components: vec!["a", "b"] }, Repeat2 { components: vec!["c"] }],
    };
    assert_eq!(field.get_all_as_string_with(&other), "a:b*c");
    assert_eq!(field.repeats[0].get_as_string_with(&other), "a:b");
}

#[test]
fn opens_with_reads_three_characters() {
    assert!(opens_with("PID|1", "PID"));
    assert!(opens_with("PID", "PID"));
    assert!(opens_with("PIDX", "PID"));
    assert!(!opens_with("PI", "PID"));
    assert!(!opens_with("PI", "PI"));
    assert!(!opens_with("PID|1", "PI"));
    assert!(!opens_with("PID|1", "PID|"));
    assert!(!opens_with("", ""));
    assert!(!opens_with("OBX|1", "PID"));
    assert!(opens_with("日本語|1", "日本語"));
    assert!(!opens_with("日本語|1", "日本"));
}
