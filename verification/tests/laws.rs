use openrailsrs_formats::encoding::{decode_msts_bytes, utf16le_msts_to_latin_bytes};
use openrailsrs_formats::lexer::{LexToken, Lexer};
use openrailsrs_formats::parser::{parse, parse_first};
use openrailsrs_formats::shape_binary_reader::BinaryBlockReader;
use openrailsrs_formats::typed::cvf::ControlType;
use openrailsrs_formats::typed::path::{PathDataPoint, PathFile};
use openrailsrs_formats::typed::track_db::{TrPinRef, TrackGraph, TrackNodeClass, TrackNodeLinks};

#[test]
fn named_control_names_read_back() {
    let all = [
        ControlType::Throttle,
        ControlType::TrainBrake,
        ControlType::Ammeter,
        ControlType::ThrottleDisplay,
        ControlType::DirectionDisplay,
        ControlType::DynamicBrakeDisplay,
        ControlType::Speedometer,
        ControlType::MainRes,
        ControlType::BrakePipe,
        ControlType::BrakeCyl,
        ControlType::EqRes,
        ControlType::LoadMeter,
        ControlType::PenaltyApp,
        ControlType::OrtsEtcs,
    ];
    for c in all {
        assert_eq!(ControlType::from_type_tokens(&[c.as_str().to_string()]), c);
    }
}

#[test]
fn integer_text_lexes_back() {
    for v in [i64::MIN, -9_000_000_000, -1, 0, 7, 42, i64::MAX] {
        let text = v.to_string();
        let mut lexer = Lexer::new(&text);
        assert_eq!(lexer.next_token().unwrap(), Some(LexToken::Integer(v)));
        assert_eq!(lexer.position(), text.len());
        assert_eq!(lexer.next_token().unwrap(), None);
    }
}

#[test]
fn lexer_always_advances() {
    let text = "( a \"b\" 1 2.5 ) ; c\n(d)";
    let mut lexer = Lexer::new(text);
    let mut last = 0;
    while let Some(_) = lexer.next_token().unwrap() {
        assert!(lexer.position() > last);
        last = lexer.position();
    }
    assert!(last <= text.len());
}

#[test]
fn bytes_written_as_utf16le_collapse_back() {
    let original: Vec<u8> = vec![b'S', b'I', b'M', 0x00, 0x7f, 0x80, 0xff, b'\n'];
    let mut units = vec![0xFF, 0xFE];
    for b in &original {
        units.push(*b);
        units.push(0);
    }
    assert_eq!(utf16le_msts_to_latin_bytes(&units), Some(original));
}

#[test]
fn ascii_text_decodes_as_itself() {
    let text = "SIMISA@@@@@@@@@@JINX0t1t______\r\n( Tr ( 1 2 ) )\t~";
    assert_eq!(decode_msts_bytes(text.as_bytes()), text);
}

#[test]
fn sub_block_stays_inside_parent() {
    // parent block (token 71) holding one child (token 72) with a 2-byte body
    let mut data = Vec::new();
    let child: Vec<u8> = vec![72, 0, 0, 0, 3, 0, 0, 0, 0, 0xAA, 0xBB];
    data.extend_from_slice(&[71, 0, 0, 0]);
    data.extend_from_slice(&((1 + child.len()) as u32).to_le_bytes());
    data.push(0);
    data.extend_from_slice(&child);
    let mut root = BinaryBlockReader::new(&data, 0, 0);
    let mut parent = root.open_sub_block().expect("parent");
    let start = parent.absolute_pos();
    let kid = parent.open_sub_block().expect("child");
    assert_eq!(kid.token_id, 72);
    assert_eq!(kid.absolute_pos(), start + 9);
    assert_eq!(kid.remaining(), 2);
    assert!(parent.end_of_block());
    assert_eq!(parent.absolute_pos(), data.len());
}

#[test]
fn path_start_and_end_nodes_agree() {
    let point = |node_id: Option<u32>| PathDataPoint::<()> {
        node_id,
        junction_flag: 0,
        invalid_flag: 0,
        world: None,
    };
    let with_nodes = PathFile { name: String::new(), pdps: vec![point(None), point(Some(4)), point(None)] };
    assert_eq!(with_nodes.start_node(), Some(4));
    assert_eq!(with_nodes.end_node(), Some(4));
    let without = PathFile { name: String::new(), pdps: vec![point(None), point(None)] };
    assert_eq!(without.start_node(), None);
    assert_eq!(without.end_node(), None);
}

#[test]
fn whole_read_agrees_with_first_read() {
    let whole = parse("(a (b 1) \"c\")").expect("whole");
    let first = parse_first("(a (b 1) \"c\")").expect("first");
    assert_eq!(format!("{whole:?}"), format!("{first:?}"));
    // Trailing text fails the whole read only.
    assert!(parse("(a) b").is_err());
    assert!(parse_first("(a) b").is_ok());
    // Other failures are the same for both.
    assert!(parse("(a").is_err() && parse_first("(a").is_err());
}

#[test]
fn pin_hops_are_symmetric_between_existing_nodes() {
    let pin = |n: u32| TrPinRef { node_id: n, branch_index: 0 };
    let g = TrackGraph {
        nodes: vec![
            TrackNodeLinks { id: 1, pin_refs: vec![pin(2)], class: TrackNodeClass::End, item_ids: vec![] },
            TrackNodeLinks { id: 2, pin_refs: vec![], class: TrackNodeClass::Vector, item_ids: vec![] },
            TrackNodeLinks { id: 3, pin_refs: vec![], class: TrackNodeClass::End, item_ids: vec![] },
        ],
        item_ids: vec![],
    };
    assert_eq!(g.pins_connect(1, 2), g.pins_connect(2, 1));
    assert!(g.pins_connect(2, 1));
    assert_eq!(g.pins_connect(1, 3), g.pins_connect(3, 1));
    assert!(!g.pins_connect(3, 1));
}
