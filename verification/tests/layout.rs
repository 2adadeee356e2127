use snn::{Model, SnnError};
use snn::dot::dot_description;
use snn::render::{layout_from_report, layout_graph, to_neato_png};
use snn::report::{parse_node_line, ParsedNode};

#[test]
fn report_line_parses_to_center_and_half_max_radius() {
    let r = parse_node_line(b"node n3 12.5 7.0 0.8 0.8 ");
    assert_eq!(
        r,
        Ok(ParsedNode {
            index: 3,
            x: 12.5f32.to_bits(),
            y: 7.0f32.to_bits(),
            w: 0.8f32.to_bits(),
            h: 0.8f32.to_bits(),
        })
    );

    let m = Model::line(4);
    let report = b"node n3 12.5 7.0 0.8 0.8 \n".to_vec();
    let (pos, _) = layout_from_report(&m, Some(&report));
    assert_eq!(pos.len(), 4);
    assert_eq!(pos[3].center, (12.5f32.to_bits(), 7.0f32.to_bits()));
    assert_eq!(pos[3].radius, 0.4f32.to_bits());
    // Unnamed neurons keep the origin position.
    assert_eq!(pos[0].center, (0, 0));
    assert_eq!(pos[0].radius, 0);
}

#[test]
fn radius_uses_the_larger_of_width_and_height() {
    let m = Model::line(2);
    let report = b"node n0 1.0 2.0 3.0 1.0\nnode n1 1.0 2.0 1.0 5.0\n".to_vec();
    let (pos, _) = layout_from_report(&m, Some(&report));
    assert_eq!(pos[0].radius, (3.0f32 * 0.5f32).to_bits());
    assert_eq!(pos[1].radius, (5.0f32 * 0.5f32).to_bits());
}

#[test]
fn malformed_lines_are_skipped_and_keep_prior_positions() {
    let m = Model::line(3);
    let report = "junk junk junk junk junk junk\nnode n1 1.0 2.0 0.5 0.5\nnode nx 9.0 9.0 9.0 9.0\nnode n0 oops 1.0 1.0 1.0\nnode n2 4.0\nnode n9 7.0 7.0 7.0 7.0\n"
        .as_bytes()
        .to_vec();
    let (pos, _) = layout_from_report(&m, Some(&report));
    // Only the single well-formed, in-range line takes effect.
    assert_eq!(pos[1].center, (1.0f32.to_bits(), 2.0f32.to_bits()));
    assert_eq!(pos[0].center, (0, 0));
    assert_eq!(pos[0].radius, 0);
    assert_eq!(pos[2].center, (0, 0));
}

#[test]
fn later_lines_overwrite_earlier_ones() {
    let m = Model::line(1);
    let report = b"node n0 1.0 1.0 1.0 1.0\nnode n0 2.0 3.0 1.0 1.0\n".to_vec();
    let (pos, _) = layout_from_report(&m, Some(&report));
    assert_eq!(pos[0].center, (2.0f32.to_bits(), 3.0f32.to_bits()));
}

#[test]
fn parse_rejects_lines_without_the_node_shape() {
    assert_eq!(parse_node_line(b""), Err(SnnError::MalformedPositionLine));
    assert_eq!(parse_node_line(b"   "), Err(SnnError::MalformedPositionLine));
    assert_eq!(parse_node_line(b"edge a b 1 2 3 4"), Err(SnnError::MalformedPositionLine));
    assert_eq!(parse_node_line(b"node n3 12.5 7.0 0.8"), Err(SnnError::MalformedPositionLine));
    assert_eq!(parse_node_line(b"node m3 1 2 3 4"), Err(SnnError::MalformedPositionLine));
    assert_eq!(parse_node_line(b"node n 1 2 3 4"), Err(SnnError::MalformedPositionLine));
    // Fields beyond the first five are ignored.
    assert!(parse_node_line(b"node n3 1 2 3 4 solid black").is_ok());
}

#[test]
fn synapse_endpoints_come_from_the_two_neuron_centers() {
    let m = Model::line(2);
    let report = b"node n0 1.0 1.0 1.0 1.0\nnode n1 2.0 3.0 1.0 1.0\n".to_vec();
    let (pos, syn) = layout_from_report(&m, Some(&report));
    assert_eq!(syn.len(), 1);
    assert_eq!(syn[0].end1, pos[0].center);
    assert_eq!(syn[0].end2, pos[1].center);
}

#[test]
fn engine_failure_degrades_to_zeroed_layout() {
    let m = Model::grid(2, 2);
    let (pos, syn) = layout_from_report(&m, None);
    assert_eq!(pos.len(), 4);
    assert_eq!(syn.len(), 8);
    for p in &pos {
        assert_eq!(p.center, (0, 0));
        assert_eq!(p.radius, 0);
    }
    for s in &syn {
        assert_eq!(s.end1, (0, 0));
        assert_eq!(s.end2, (0, 0));
    }
}

#[test]
fn layout_graph_always_returns_full_tables() {
    let m = Model::grid(2, 3);
    let (pos, syn) = layout_graph(&m);
    assert_eq!(pos.len(), 6);
    assert_eq!(syn.len(), m.synapse_states().len());
}

#[test]
fn dot_description_of_a_chain() {
    let m = Model::line(2);
    let dot = dot_description(&m);
    let expected = "digraph model {\ngraph[layout=neato,overlap=false,splines=line,mode=sgd]\nn0[shape=point]\nn0 -> n1[dir=none]\nn1[shape=point]\n}\n";
    assert_eq!(dot.as_slice(), expected.as_bytes());
}

#[test]
fn dot_description_of_the_empty_model() {
    let m = Model::empty();
    let dot = dot_description(&m);
    let expected = "digraph model {\ngraph[layout=neato,overlap=false,splines=line,mode=sgd]\n}\n";
    assert_eq!(dot.as_slice(), expected.as_bytes());
}

#[test]
fn png_export_fails_only_as_engine_unavailable() {
    let m = Model::line(2);
    match m.to_neato_png() {
        Ok(bytes) => assert!(!bytes.is_empty()),
        Err(e) => assert_eq!(e, SnnError::LayoutEngineUnavailable),
    }
    match to_neato_png(&m) {
        Ok(bytes) => assert!(!bytes.is_empty()),
        Err(e) => assert_eq!(e, SnnError::LayoutEngineUnavailable),
    }
}

#[test]
fn node_names_allow_leading_zeros_but_not_overflow() {
    let ok = parse_node_line(b"node n007 1.0 1.0 1.0 1.0");
    assert!(matches!(ok, Ok(p) if p.index == 7));
    // An index beyond the machine's range cannot name a neuron.
    assert_eq!(
        parse_node_line(b"node n99999999999999999999999999 1.0 1.0 1.0 1.0"),
        Err(SnnError::MalformedPositionLine)
    );
}

#[test]
fn tokens_may_be_separated_by_runs_of_blanks_and_tabs() {
    let r = parse_node_line(b"  node\tn2   1.5\t\t2.5  0.2 0.2\r");
    assert_eq!(
        r,
        Ok(ParsedNode {
            index: 2,
            x: 1.5f32.to_bits(),
            y: 2.5f32.to_bits(),
            w: 0.2f32.to_bits(),
            h: 0.2f32.to_bits(),
        })
    );
}
