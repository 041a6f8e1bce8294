use ev3_project::error::ParseError;
use ev3_project::ev3::grammar::{BlockType, SequenceBlockType};
use ev3_project::ev3::parser::{Block, BlockAttribute, FileBuilder, SequenceBlock, Wire};
use ev3_project::ev3::tags::{parse_terminal, parse_wire_tag};
use ev3_project::ev3::project::{File, Version};
use ev3_project::utils::xml::{parse_attributes, ParsedAttribute, RawAttribute, XmlEvent, XmlTag};

const WIRE_TYPE: &str = "NationalInstruments:SourceModel:DataTypes:X3SequenceWireDataType";

fn attr(key: &str, value: &str) -> RawAttribute {
    RawAttribute { key: key.as_bytes().to_vec(), value: value.as_bytes().to_vec() }
}

fn attrs(pairs: &[(&str, &str)]) -> Vec<RawAttribute> {
    pairs.iter().map(|(k, v)| attr(k, v)).collect()
}

fn parsed(pairs: &[(&str, &str)]) -> Vec<ParsedAttribute> {
    parse_attributes(&XmlTag { name: b"T".to_vec(), attributes: attrs(pairs) }).unwrap()
}

fn start(name: &str, pairs: &[(&str, &str)]) -> XmlEvent {
    XmlEvent::StartTag(XmlTag { name: name.as_bytes().to_vec(), attributes: attrs(pairs) })
}

fn empty(name: &str, pairs: &[(&str, &str)]) -> XmlEvent {
    XmlEvent::EmptyTag(XmlTag { name: name.as_bytes().to_vec(), attributes: attrs(pairs) })
}

fn end(name: &str) -> XmlEvent {
    XmlEvent::EndTag(name.as_bytes().to_vec())
}

fn decl() -> XmlEvent {
    XmlEvent::Declaration(b"xml version=\"1.0\" encoding=\"utf-8\"".to_vec())
}

fn sequence_out(wire: Option<&str>) -> XmlEvent {
    let mut pairs = vec![
        ("Id", "SequenceOut"),
        ("Direction", "Output"),
        ("DataType", WIRE_TYPE),
        ("Hotspot", "1 0.5"),
        ("Bounds", "52 33 18 18"),
    ];
    if let Some(wire) = wire {
        pairs.push(("Wire", wire));
    }
    empty("Terminal", &pairs)
}

fn sequence_in(wire: Option<&str>) -> XmlEvent {
    let mut pairs = vec![
        ("Id", "SequenceIn"),
        ("Direction", "Input"),
        ("DataType", WIRE_TYPE),
        ("Hotspot", "0 0.5"),
        ("Bounds", "0 33 18 18"),
    ];
    if let Some(wire) = wire {
        pairs.push(("Wire", wire));
    }
    empty("Terminal", &pairs)
}

fn start_block(id: &str, wire: Option<&str>) -> Vec<XmlEvent> {
    vec![
        start("StartBlock", &[("Id", id), ("Bounds", "0 0 70 91"), ("Target", "X3\\.Lib:StartBlockTest")]),
        start("ConfigurableMethodTerminal", &[]),
        empty("Terminal", &[("Id", "Result"), ("Direction", "Output")]),
        end("ConfigurableMethodTerminal"),
        sequence_out(wire),
        end("StartBlock"),
    ]
}

fn argument(id: &str, value: &str) -> Vec<XmlEvent> {
    vec![
        start("ConfigurableMethodTerminal", &[("ConfiguredValue", value)]),
        empty(
            "Terminal",
            &[("Id", id), ("Direction", "Input"), ("DataType", "Single"), ("Hotspot", "0.5 1"), ("Bounds", "0 0 1 1")],
        ),
        end("ConfigurableMethodTerminal"),
    ]
}

fn motor_move(id: &str, target: &str, arguments: &[(&str, &str)]) -> Vec<XmlEvent> {
    let mut events = vec![start(
        "ConfigurableMethodCall",
        &[("Id", id), ("Bounds", "100 0 249 91"), ("Target", target)],
    )];
    for (name, value) in arguments {
        events.extend(argument(name, value));
    }
    events.push(sequence_in(Some("w1")));
    events.push(sequence_out(None));
    events.push(end("ConfigurableMethodCall"));
    events
}

fn usual_arguments() -> Vec<(&'static str, &'static str)> {
    vec![
        ("InterruptsToListenFor_16B03592_CD76_4D58_8DC3_E3C3091E327A", "0"),
        ("Ports", "xxAxxB"),
        ("Steering", "-50"),
        ("Speed", "75"),
    ]
}

fn document(inner: Vec<XmlEvent>) -> Vec<XmlEvent> {
    let mut events = vec![
        decl(),
        start("SourceFile", &[("Version", "1.0.2.10"), ("xmlns", "http://www.ni.com/SourceModel.xsd")]),
        start("Namespace", &[("Name", "Project")]),
        start("VirtualInstrument", &[("IsTopLevel", "false")]),
        start("FrontPanel", &[]),
        empty("FrontPanelCanvas", &[("Width", "640")]),
        end("FrontPanel"),
        start("BlockDiagram", &[("Name", "__RootDiagram__")]),
    ];
    events.extend(inner);
    events.extend(vec![
        end("BlockDiagram"),
        end("VirtualInstrument"),
        end("Namespace"),
        end("SourceFile"),
        XmlEvent::EndOfStream,
    ]);
    events
}

fn build(inner: Vec<XmlEvent>) -> Result<File, ParseError> {
    File::from_events("Program.ev3p", document(inner))
}

fn error_of(inner: Vec<XmlEvent>) -> ParseError {
    build(inner).unwrap_err()
}

fn replaced(mut events: Vec<XmlEvent>, at: usize, with: XmlEvent) -> Vec<XmlEvent> {
    events[at] = with;
    events
}

fn terminal_out(wire: Option<&str>) -> SequenceBlock {
    SequenceBlock { ty: SequenceBlockType::Out, bounds: (18, 18), wire_id: wire.map(|w| w.to_string()) }
}

#[test]
fn minimal_document_has_one_start_block() {
    let events = vec![
        decl(),
        start("SourceFile", &[("Version", "1.0.2.10"), ("xmlns", "http://www.ni.com/SourceModel.xsd")]),
        start("Namespace", &[("Name", "Project")]),
        start("VirtualInstrument", &[]),
        start("FrontPanel", &[]),
        start("BlockDiagram", &[("Name", "__RootDiagram__")]),
        start("StartBlock", &[("Id", "n1"), ("Bounds", "0 0 70 91")]),
        start("ConfigurableMethodTerminal", &[]),
        empty("Terminal", &[]),
        end("ConfigurableMethodTerminal"),
        sequence_out(Some("w7")),
        end("StartBlock"),
        XmlEvent::EndOfStream,
    ];
    let file = File::from_events("Program.ev3p", events).unwrap();
    assert_eq!(file.name, "Program.ev3p");
    assert_eq!(
        file.version,
        Version { number: "1.0.2.10".to_string(), namespace: "http://www.ni.com/SourceModel.xsd".to_string() }
    );
    assert_eq!(file.decl, b"xml version=\"1.0\" encoding=\"utf-8\"".to_vec());
    assert_eq!(file.blocks.len(), 1);
    assert_eq!(file.wires.len(), 0);
    assert_eq!(
        file.blocks.get("n1"),
        Some(&Block {
            ty: BlockType::Start,
            bounds: (70, 91),
            sequence_in: None,
            sequence_out: Some(terminal_out(Some("w7"))),
        })
    );
}

#[test]
fn start_block_without_a_wire() {
    let file = build(start_block("n1", None)).unwrap();
    let block = file.blocks.get("n1").unwrap();
    assert_eq!(block.ty, BlockType::Start);
    assert_eq!(block.sequence_in, None);
    assert_eq!(block.sequence_out, Some(terminal_out(None)));
    assert!(file.blocks.get("n2").is_none());
}

#[test]
fn motor_move_has_ports_steering_and_speed() {
    let file = build(motor_move("n2", "MoveUnlimited.vix", &usual_arguments())).unwrap();
    assert_eq!(file.blocks.len(), 1);
    assert_eq!(
        file.blocks.get("n2"),
        Some(&Block {
            ty: BlockType::MotorMove { ports: ('A', 'B'), steering: -50, speed: 75 },
            bounds: (249, 91),
            sequence_in: Some(SequenceBlock {
                ty: SequenceBlockType::In,
                bounds: (18, 18),
                wire_id: Some("w1".to_string()),
            }),
            sequence_out: Some(terminal_out(None)),
        })
    );
}

#[test]
fn motor_move_takes_the_last_of_an_argument_given_twice() {
    let mut arguments = usual_arguments();
    arguments.push(("Speed", "+10"));
    arguments.push(("Ports", "1.C+D!"));
    let file = build(motor_move("n2", "MoveUnlimited.vix", &arguments)).unwrap();
    assert_eq!(
        file.blocks.get("n2").unwrap().ty,
        BlockType::MotorMove { ports: ('C', '!'), steering: -50, speed: 10 }
    );
}

#[test]
fn whole_program_with_a_wire() {
    let mut inner = start_block("n1", Some("w1"));
    inner.extend(motor_move("n2", "MoveUnlimited.vix", &usual_arguments()));
    inner.push(empty("Wire", &[("Id", "w1"), ("Joints", "N(n1:SequenceOut) N(n2:SequenceIn)")]));
    inner.push(XmlEvent::Comment);
    inner.push(start("Icon", &[]));
    inner.push(end("Icon"));
    inner.push(empty("AnimationsContainer", &[]));
    inner.push(empty("EventContainer", &[]));
    let file = build(inner).unwrap();
    assert_eq!(file.blocks.len(), 2);
    assert_eq!(file.wires.len(), 1);
    assert_eq!(file.wires.get("w1"), Some(&Wire { input: "n2".to_string(), output: "n1".to_string() }));
    assert!(file.blocks.contains_key("n1"));
    assert!(file.blocks.contains_key("n2"));
    let ids: Vec<&str> = file.blocks.as_slice().iter().map(|(id, _)| id.as_str()).collect();
    assert_eq!(ids, vec!["n1", "n2"]);
}

#[test]
fn second_wire_with_one_id_fails() {
    let inner = vec![
        empty("Wire", &[("Id", "w1"), ("Joints", "N(a:SequenceIn) N(b:SequenceOut)")]),
        empty("Wire", &[("Id", "w2"), ("Joints", "N(c:SequenceIn) N(d:SequenceOut)")]),
        empty("Wire", &[("Id", "w1"), ("Joints", "N(e:SequenceIn) N(f:SequenceOut)")]),
    ];
    assert_eq!(error_of(inner), ParseError::DuplicateWireId);
    let two = vec![
        empty("Wire", &[("Id", "w1"), ("Joints", "N(a:SequenceIn) N(b:SequenceOut)")]),
        empty("Wire", &[("Id", "w2"), ("Joints", "N(c:SequenceIn) N(d:SequenceOut)")]),
    ];
    assert_eq!(build(two).unwrap().wires.len(), 2);
}

#[test]
fn second_block_with_one_id_takes_the_place_of_the_first() {
    let mut inner = start_block("n1", Some("w1"));
    inner.extend(motor_move("n1", "MoveUnlimited.vix", &usual_arguments()));
    let file = build(inner).unwrap();
    assert_eq!(file.blocks.len(), 1);
    assert_eq!(
        file.blocks.get("n1").unwrap().ty,
        BlockType::MotorMove { ports: ('A', 'B'), steering: -50, speed: 75 }
    );
    let mut twice = start_block("n1", Some("w1"));
    twice.extend(start_block("n1", None));
    let file = build(twice).unwrap();
    assert_eq!(file.blocks.len(), 1);
    assert_eq!(file.blocks.get("n1").unwrap().sequence_out, Some(terminal_out(None)));
}

#[test]
fn unknown_start_tag_fails_the_parse() {
    assert_eq!(error_of(vec![start("WhileLoop", &[])]), ParseError::UnknownTag);
    let mut late = start_block("n1", None);
    late.push(start("Mystery", &[("Id", "n9")]));
    late.push(end("Mystery"));
    assert_eq!(error_of(late), ParseError::UnknownTag);
    let first = vec![start("Mystery", &[]), XmlEvent::EndOfStream];
    assert_eq!(File::from_events("p", first).unwrap_err(), ParseError::UnknownTag);
}

#[test]
fn unknown_end_and_empty_tags_fail_the_parse() {
    assert_eq!(error_of(vec![end("StartBlock")]), ParseError::UnknownTag);
    assert_eq!(error_of(vec![end("Mystery")]), ParseError::UnknownTag);
    assert_eq!(error_of(vec![empty("Terminal", &[])]), ParseError::UnknownTag);
    assert_eq!(error_of(vec![empty("Mystery", &[])]), ParseError::UnknownTag);
}

#[test]
fn text_fails_the_parse() {
    assert_eq!(error_of(vec![XmlEvent::Text(b"hello".to_vec())]), ParseError::UnexpectedText);
    assert_eq!(error_of(vec![XmlEvent::Text(vec![0xff])]), ParseError::UnexpectedText);
}

#[test]
fn other_events_fail_the_parse() {
    assert_eq!(error_of(vec![XmlEvent::CData]), ParseError::UnexpectedStructure);
    assert_eq!(error_of(vec![XmlEvent::ProcessingInstruction]), ParseError::UnexpectedStructure);
    assert_eq!(error_of(vec![XmlEvent::DocType]), ParseError::UnexpectedStructure);
}

#[test]
fn comments_pass() {
    let file = build(vec![XmlEvent::Comment, XmlEvent::Comment]).unwrap();
    assert_eq!(file.blocks.len(), 0);
}

#[test]
fn second_declaration_fails() {
    assert_eq!(error_of(vec![decl()]), ParseError::DuplicateDeclaration);
}

#[test]
fn second_version_fails() {
    let again = start("SourceFile", &[("Version", "2"), ("xmlns", "x")]);
    assert_eq!(error_of(vec![again]), ParseError::DuplicateVersion);
}

#[test]
fn events_that_run_out_fail() {
    assert_eq!(File::from_events("p", vec![]).unwrap_err(), ParseError::EndOfStream);
    assert_eq!(File::from_events("p", vec![decl()]).unwrap_err(), ParseError::EndOfStream);
    let mut cut = document(start_block("n1", None));
    cut.pop();
    assert_eq!(File::from_events("p", cut).unwrap_err(), ParseError::EndOfStream);
    let mut inside = vec![decl()];
    inside.extend(start_block("n1", None));
    inside.truncate(4);
    assert_eq!(File::from_events("p", inside).unwrap_err(), ParseError::EndOfStream);
}

#[test]
fn events_behind_the_end_are_not_read() {
    let mut events = document(vec![]);
    events.push(start("Mystery", &[]));
    assert!(File::from_events("p", events).is_ok());
}

#[test]
fn document_without_version_or_declaration_fails() {
    let no_decl = vec![start("SourceFile", &[("Version", "1"), ("xmlns", "x")]), XmlEvent::EndOfStream];
    assert_eq!(File::from_events("p", no_decl).unwrap_err(), ParseError::MissingRequiredField);
    let no_version = vec![decl(), XmlEvent::EndOfStream];
    assert_eq!(File::from_events("p", no_version).unwrap_err(), ParseError::MissingRequiredField);
    let both = vec![decl(), start("SourceFile", &[("Version", "1"), ("xmlns", "x")]), XmlEvent::EndOfStream];
    assert!(File::from_events("p", both).is_ok());
}

#[test]
fn source_file_attributes() {
    let one = |pairs: &[(&str, &str)]| {
        File::from_events("p", vec![decl(), start("SourceFile", pairs), XmlEvent::EndOfStream])
    };
    assert_eq!(one(&[("Version", "1")]).unwrap_err(), ParseError::MissingRequiredField);
    assert_eq!(one(&[("xmlns", "x")]).unwrap_err(), ParseError::MissingRequiredField);
    assert_eq!(one(&[]).unwrap_err(), ParseError::MissingRequiredField);
    assert_eq!(one(&[("Version", "1"), ("xmlns", "x"), ("Extra", "y")]).unwrap_err(), ParseError::UnknownAttribute);
    assert_eq!(one(&[("Extra", "y")]).unwrap_err(), ParseError::UnknownAttribute);
    let file = one(&[("Version", "1"), ("xmlns", "x"), ("Version", "2")]).unwrap();
    assert_eq!(file.version, Version { number: "2".to_string(), namespace: "x".to_string() });
    let prefixed = vec![decl(), start("p:SourceFile", &[("Version", "1"), ("xmlns", "x")]), XmlEvent::EndOfStream];
    assert_eq!(File::from_events("p", prefixed).unwrap_err(), ParseError::UnexpectedStructure);
}

#[test]
fn namespace_must_be_the_project() {
    let with = |tag: XmlEvent| File::from_events("p", replaced(document(vec![]), 2, tag));
    assert_eq!(with(start("Namespace", &[("Name", "Library")])).unwrap_err(), ParseError::UnexpectedStructure);
    assert_eq!(with(start("x:Namespace", &[("Name", "Project")])).unwrap_err(), ParseError::UnexpectedStructure);
    assert!(with(start("Namespace", &[])).is_ok());
    assert!(with(start("Namespace", &[("Other", "Library"), ("Name", "Project")])).is_ok());
}

#[test]
fn block_diagram_must_be_the_root() {
    let with = |tag: XmlEvent| File::from_events("p", replaced(document(vec![]), 7, tag));
    assert_eq!(with(start("BlockDiagram", &[("Name", "Sub")])).unwrap_err(), ParseError::UnexpectedStructure);
    assert_eq!(with(start("BlockDiagram", &[("Id", "d1")])).unwrap_err(), ParseError::UnknownAttribute);
    assert!(with(start("BlockDiagram", &[])).is_ok());
    assert!(with(start("x:BlockDiagram", &[("Name", "__RootDiagram__")])).is_ok());
}

#[test]
fn names_that_are_not_utf8_fail() {
    let tag = XmlEvent::StartTag(XmlTag { name: vec![0xff, 0xfe], attributes: vec![] });
    assert_eq!(error_of(vec![tag]), ParseError::InvalidEncoding);
    let closing = XmlEvent::EndTag(vec![0xff]);
    assert_eq!(error_of(vec![closing]), ParseError::InvalidEncoding);
    let value = XmlEvent::EmptyTag(XmlTag {
        name: b"Mystery".to_vec(),
        attributes: vec![RawAttribute { key: b"Id".to_vec(), value: vec![0xc3, 0x28] }],
    });
    assert_eq!(error_of(vec![value]), ParseError::InvalidEncoding);
}

#[test]
fn start_block_header() {
    let with = |pairs: &[(&str, &str)]| error_of(replaced(start_block("n1", None), 0, start("StartBlock", pairs)));
    assert_eq!(with(&[("Bounds", "0 0 1 1")]), ParseError::MissingRequiredField);
    assert_eq!(with(&[("Id", "n1")]), ParseError::MissingRequiredField);
    assert_eq!(with(&[("Id", "n1"), ("Bounds", "0 0 1")]), ParseError::MalformedBounds);
    assert_eq!(with(&[("Id", "n1"), ("Bounds", "0 0 1 1"), ("Colour", "red")]), ParseError::UnknownAttribute);
    assert_eq!(with(&[("Colour", "red"), ("Bounds", "bad")]), ParseError::UnknownAttribute);
    assert_eq!(with(&[("Bounds", "bad"), ("Colour", "red")]), ParseError::MalformedBounds);
    let prefixed = replaced(start_block("n1", None), 0, start("x:StartBlock", &[("Id", "n1"), ("Bounds", "0 0 1 1")]));
    assert_eq!(error_of(prefixed), ParseError::UnexpectedStructure);
}

#[test]
fn start_block_shape() {
    let with = |at: usize, event: XmlEvent| error_of(replaced(start_block("n1", None), at, event));
    let unexpected = ParseError::UnexpectedStructure;
    assert_eq!(with(1, empty("ConfigurableMethodTerminal", &[])), unexpected);
    assert_eq!(with(1, start("ConfigurableMethodTerminal", &[("ConfiguredValue", "1")])), unexpected);
    assert_eq!(with(1, start("x:ConfigurableMethodTerminal", &[])), unexpected);
    assert_eq!(with(1, start("Terminal", &[])), unexpected);
    assert_eq!(with(2, start("Terminal", &[])), unexpected);
    assert_eq!(with(2, XmlEvent::Comment), unexpected);
    assert_eq!(with(3, end("Terminal")), unexpected);
    assert_eq!(with(3, end("x:ConfigurableMethodTerminal")), unexpected);
    assert_eq!(with(3, empty("ConfigurableMethodTerminal", &[])), unexpected);
    assert_eq!(with(4, empty("Hatch", &[("Bounds", "0 0 1 1")])), unexpected);
    assert_eq!(with(4, empty("x:Terminal", &[("Bounds", "0 0 1 1")])), unexpected);
    assert_eq!(with(4, start("Terminal", &[("Bounds", "0 0 1 1")])), unexpected);
    assert_eq!(with(5, end("ConfigurableMethodCall")), unexpected);
    assert_eq!(with(5, end("x:StartBlock")), unexpected);
    assert_eq!(with(5, XmlEvent::EndOfStream), unexpected);
    assert_eq!(with(3, XmlEvent::EndTag(vec![0xff])), ParseError::InvalidEncoding);
}

#[test]
fn start_block_passes_over_what_its_inner_tag_holds() {
    let odd = XmlEvent::EmptyTag(XmlTag {
        name: vec![0xff],
        attributes: vec![RawAttribute { key: vec![0xfe], value: vec![0xfd] }],
    });
    assert!(build(replaced(start_block("n1", None), 2, odd)).is_ok());
}

#[test]
fn sequence_terminal_attributes() {
    let out = |pairs: &[(&str, &str)]| parse_terminal(&parsed(pairs), SequenceBlockType::Out);
    let input = |pairs: &[(&str, &str)]| parse_terminal(&parsed(pairs), SequenceBlockType::In);
    assert_eq!(
        out(&[("Id", "SequenceOut"), ("Direction", "Output"), ("DataType", WIRE_TYPE), ("Bounds", "1 2 3 4")]),
        Ok(SequenceBlock { ty: SequenceBlockType::Out, bounds: (3, 4), wire_id: None })
    );
    assert_eq!(
        input(&[
            ("Wire", "w1"),
            ("Bounds", "1 2 3 4"),
            ("Id", "SequenceIn"),
            ("Wire", "w2"),
            ("DataType", WIRE_TYPE),
            ("Bounds", "5  6\t7 8"),
            ("Direction", "Input"),
            ("Id", "SequenceIn"),
        ]),
        Ok(SequenceBlock { ty: SequenceBlockType::In, bounds: (7, 8), wire_id: Some("w2".to_string()) })
    );
    assert_eq!(out(&[("Bounds", "1 2 3 4")]), Err(ParseError::MissingRequiredField));
    assert_eq!(
        out(&[("Direction", "Output"), ("DataType", WIRE_TYPE), ("Bounds", "1 2 3 4")]),
        Err(ParseError::MissingRequiredField)
    );
    assert_eq!(
        out(&[("Id", "SequenceOut"), ("DataType", WIRE_TYPE), ("Bounds", "1 2 3 4")]),
        Err(ParseError::MissingRequiredField)
    );
    assert_eq!(
        input(&[("Id", "SequenceIn"), ("Direction", "Input"), ("Bounds", "1 2 3 4")]),
        Err(ParseError::MissingRequiredField)
    );
    assert_eq!(
        input(&[("Id", "SequenceIn"), ("Direction", "Input"), ("DataType", WIRE_TYPE)]),
        Err(ParseError::MissingRequiredField)
    );
    assert_eq!(out(&[]), Err(ParseError::MissingRequiredField));
    assert_eq!(out(&[("Wire", "w1")]), Err(ParseError::MissingRequiredField));
    assert_eq!(out(&[("Bounds", "1 2 3")]), Err(ParseError::MalformedBounds));
    assert_eq!(out(&[("Bounds", "1 2 3 4"), ("Id", "SequenceIn")]), Err(ParseError::UnexpectedStructure));
    assert_eq!(input(&[("Bounds", "1 2 3 4"), ("Id", "SequenceOut")]), Err(ParseError::UnexpectedStructure));
    assert_eq!(out(&[("Bounds", "1 2 3 4"), ("Direction", "Input")]), Err(ParseError::UnexpectedStructure));
    assert_eq!(input(&[("Bounds", "1 2 3 4"), ("Direction", "Output")]), Err(ParseError::UnexpectedStructure));
    assert_eq!(out(&[("Bounds", "1 2 3 4"), ("DataType", "Int32")]), Err(ParseError::UnexpectedStructure));
    assert_eq!(out(&[("Bounds", "1 2 3 4"), ("Colour", "red")]), Err(ParseError::UnknownAttribute));
    assert!(input(&[("Id", "SequenceIn"), ("Direction", "Input"), ("DataType", WIRE_TYPE), ("Hotspot", "?"), ("Bounds", "1 2 3 4")]).is_ok());
}

#[test]
fn method_call_header() {
    let with = |pairs: &[(&str, &str)]| {
        let events = motor_move("n2", "MoveUnlimited.vix", &usual_arguments());
        error_of(replaced(events, 0, start("ConfigurableMethodCall", pairs)))
    };
    assert_eq!(with(&[("Bounds", "0 0 1 1"), ("Target", "MoveUnlimited.vix")]), ParseError::MissingRequiredField);
    assert_eq!(with(&[("Id", "n2"), ("Target", "MoveUnlimited.vix")]), ParseError::MissingRequiredField);
    assert_eq!(with(&[("Id", "n2"), ("Bounds", "0 0 1 1")]), ParseError::MissingRequiredField);
    assert_eq!(with(&[("Id", "n2"), ("Bounds", "1"), ("Target", "MoveUnlimited.vix")]), ParseError::MalformedBounds);
    assert_eq!(with(&[("Id", "n2"), ("Bounds", "0 0 1 1"), ("Target", "x"), ("Odd", "1")]), ParseError::UnknownAttribute);
    assert_eq!(with(&[("Id", "n2"), ("Bounds", "0 0 1 1"), ("Target", "Wait.vix")]), ParseError::UnknownMethodTarget);
    assert_eq!(with(&[("Id", "n2"), ("Bounds", "0 0 1 1"), ("Target", "MoveUnlimited\\.vix")]), ParseError::UnknownMethodTarget);
    let prefixed = replaced(
        motor_move("n2", "MoveUnlimited.vix", &usual_arguments()),
        0,
        start("x:ConfigurableMethodCall", &[("Id", "n2"), ("Bounds", "0 0 1 1"), ("Target", "MoveUnlimited.vix")]),
    );
    assert_eq!(error_of(prefixed), ParseError::UnexpectedStructure);
}

#[test]
fn motor_move_arguments() {
    let with = |arguments: &[(&str, &str)]| error_of(motor_move("n2", "MoveUnlimited.vix", arguments));
    assert_eq!(with(&[("Steering", "0"), ("Speed", "1")]), ParseError::MissingRequiredField);
    assert_eq!(with(&[("Ports", "1.A+.B"), ("Speed", "1")]), ParseError::MissingRequiredField);
    assert_eq!(with(&[("Ports", "1.A+.B"), ("Steering", "0")]), ParseError::MissingRequiredField);
    assert_eq!(with(&[]), ParseError::MissingRequiredField);
    assert_eq!(with(&[("Ports", "xxAxx"), ("Steering", "0"), ("Speed", "1")]), ParseError::MissingRequiredField);
    assert_eq!(with(&[("Ports", ""), ("Steering", "0"), ("Speed", "1")]), ParseError::MissingRequiredField);
    assert_eq!(with(&[("Ports", "xxAxxB"), ("Steering", "left"), ("Speed", "1")]), ParseError::UnexpectedStructure);
    assert_eq!(with(&[("Ports", "xxAxxB"), ("Steering", "0"), ("Speed", "-1")]), ParseError::UnexpectedStructure);
    assert_eq!(with(&[("Ports", "xxAxxB"), ("Steering", "0"), ("Speed", "1.5")]), ParseError::UnexpectedStructure);
    assert_eq!(with(&[("Ports", "xxAxxB"), ("Steering", "0"), ("Speed", "1"), ("Power", "9")]), ParseError::UnknownAttribute);
    assert_eq!(with(&[("InterruptsToListenFor_", "0")]), ParseError::UnknownAttribute);
}

#[test]
fn motor_move_ports_are_characters() {
    let file = build(motor_move("n2", "MoveUnlimited.vix", &[("Ports", "äöÄüßÖ"), ("Steering", "+7"), ("Speed", "0")])).unwrap();
    assert_eq!(file.blocks.get("n2").unwrap().ty, BlockType::MotorMove { ports: ('Ä', 'Ö'), steering: 7, speed: 0 });
}

#[test]
fn block_attribute_shape() {
    let base = || motor_move("n2", "MoveUnlimited.vix", &usual_arguments());
    let with = |at: usize, event: XmlEvent| error_of(replaced(base(), at, event));
    let unexpected = ParseError::UnexpectedStructure;
    assert_eq!(with(1, start("Terminal", &[("ConfiguredValue", "0")])), unexpected);
    assert_eq!(with(1, start("x:ConfigurableMethodTerminal", &[("ConfiguredValue", "0")])), unexpected);
    assert_eq!(with(1, start("ConfigurableMethodTerminal", &[])), unexpected);
    assert_eq!(with(1, start("ConfigurableMethodTerminal", &[("Value", "0")])), unexpected);
    assert_eq!(with(1, start("ConfigurableMethodTerminal", &[("ConfiguredValue", "0"), ("Other", "1")])), unexpected);
    assert_eq!(with(2, start("Terminal", &[("Id", "Ports")])), unexpected);
    assert_eq!(with(2, empty("Hatch", &[("Id", "Ports")])), unexpected);
    assert_eq!(with(2, empty("x:Terminal", &[("Id", "Ports")])), unexpected);
    assert_eq!(with(2, empty("Terminal", &[("Direction", "Input")])), ParseError::MissingRequiredField);
    assert_eq!(with(2, empty("Terminal", &[("Id", "Ports"), ("Wire", "w1")])), ParseError::UnknownAttribute);
    assert_eq!(with(3, empty("ConfigurableMethodTerminal", &[])), unexpected);
    assert_eq!(with(3, XmlEvent::Comment), unexpected);
    assert_eq!(with(3, end("Terminal")), unexpected);
    assert_eq!(with(3, end("x:ConfigurableMethodTerminal")), unexpected);
    assert_eq!(with(3, XmlEvent::EndTag(vec![0xff])), ParseError::InvalidEncoding);
}

#[test]
fn method_call_shape() {
    let base = || motor_move("n2", "MoveUnlimited.vix", &usual_arguments());
    let with = |at: usize, event: XmlEvent| error_of(replaced(base(), at, event));
    let unexpected = ParseError::UnexpectedStructure;
    assert_eq!(base().len(), 16);
    assert_eq!(with(13, sequence_out(None)), unexpected);
    assert_eq!(with(14, sequence_in(None)), unexpected);
    assert_eq!(with(13, end("ConfigurableMethodCall")), unexpected);
    assert_eq!(with(14, XmlEvent::Comment), unexpected);
    assert_eq!(with(13, empty("Terminal", &[("Id", "SequenceIn")])), ParseError::MissingRequiredField);
    assert_eq!(with(15, end("StartBlock")), unexpected);
    assert_eq!(with(15, end("x:ConfigurableMethodCall")), unexpected);
    assert_eq!(with(15, sequence_out(None)), unexpected);
}

#[test]
fn wire_attributes() {
    let wire = |pairs: &[(&str, &str)]| parse_wire_tag(parsed(pairs));
    assert_eq!(
        wire(&[("Joints", "N(n1:SequenceOut) N(n2:SequenceIn)"), ("Id", "w1")]),
        Ok(("w1".to_string(), Wire { input: "n2".to_string(), output: "n1".to_string() }))
    );
    assert_eq!(wire(&[("Id", "w1")]), Err(ParseError::MissingRequiredField));
    assert_eq!(wire(&[("Joints", "N(a:SequenceIn) N(b:SequenceOut)")]), Err(ParseError::MissingRequiredField));
    assert_eq!(wire(&[("Id", "w1"), ("Joints", "N(a:SequenceIn)")]), Err(ParseError::MalformedJoints));
    assert_eq!(error_of(vec![empty("Wire", &[("Id", "w1"), ("Joints", "")])]), ParseError::MalformedJoints);
    assert_eq!(
        wire(&[("Id", "w1"), ("Joints", "N(a:SequenceIn) N(b:SequenceOut)"), ("Bounds", "0 0 1 1")]),
        Err(ParseError::UnknownAttribute)
    );
}

#[test]
fn cursor_next_and_peek() {
    let mut builder = FileBuilder::from_events(vec![XmlEvent::Comment, end("Icon")]);
    assert_eq!(builder.peek_event(), Ok(&XmlEvent::Comment));
    assert_eq!(builder.peek_event(), Ok(&XmlEvent::Comment));
    assert_eq!(builder.next_event(), Ok(&XmlEvent::Comment));
    assert_eq!(builder.peek_event(), Ok(&end("Icon")));
    assert_eq!(builder.next_event(), Ok(&end("Icon")));
    assert_eq!(builder.peek_event(), Err(ParseError::EndOfStream));
    assert_eq!(builder.next_event(), Err(ParseError::EndOfStream));
    assert_eq!(builder.next_event(), Err(ParseError::EndOfStream));
    let mut none = FileBuilder::default();
    assert_eq!(none.next_event(), Err(ParseError::EndOfStream));
}

#[test]
fn block_attribute_ends_at_another_event() {
    let mut events = argument("Speed", "75");
    events.push(sequence_in(None));
    let mut builder = FileBuilder::from_events(events);
    assert_eq!(
        builder.parse_block_attribute(),
        Ok(Some(BlockAttribute { id: "Speed".to_string(), value: "75".to_string() }))
    );
    assert_eq!(builder.parse_block_attribute(), Ok(None));
    assert_eq!(builder.parse_block_attribute(), Ok(None));
    assert_eq!(builder.peek_event(), Ok(&sequence_in(None)));
    assert!(builder.next_event().is_ok());
    assert_eq!(builder.parse_block_attribute(), Err(ParseError::EndOfStream));
}

#[test]
fn builder_name_and_build() {
    let mut builder = FileBuilder::from_events(document(vec![]));
    assert_eq!(builder.name("first".to_string()), Ok(()));
    assert_eq!(builder.name("second".to_string()), Err(ParseError::DuplicateName));
    assert_eq!(builder.parse(), Ok(()));
    assert_eq!(builder.build().unwrap().name, "first");

    let mut unnamed = FileBuilder::from_events(document(vec![]));
    assert_eq!(unnamed.parse(), Ok(()));
    assert_eq!(unnamed.build().unwrap_err(), ParseError::MissingRequiredField);

    let mut unparsed = FileBuilder::from_events(document(vec![]));
    assert_eq!(unparsed.name("n".to_string()), Ok(()));
    assert_eq!(unparsed.build().unwrap_err(), ParseError::MissingRequiredField);
}

#[test]
fn parse_stops_at_the_first_error() {
    let mut inner = start_block("n1", None);
    inner.push(XmlEvent::Text(b"x".to_vec()));
    inner.push(start("Mystery", &[]));
    let mut builder = FileBuilder::from_events(document(inner));
    assert_eq!(builder.parse(), Err(ParseError::UnexpectedText));
}

#[test]
fn parse_event_says_when_the_file_ends() {
    let mut builder = FileBuilder::from_events(vec![XmlEvent::Comment, XmlEvent::EndOfStream]);
    assert_eq!(builder.parse_event(), Ok(false));
    assert_eq!(builder.parse_event(), Ok(true));
    assert_eq!(builder.parse_event(), Err(ParseError::EndOfStream));
}
