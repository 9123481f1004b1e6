use oxstore::update::{write_quads, GraphName, Quad};

fn quad(s: &str, p: &str, o: &str, g: Option<&str>) -> Quad {
    Quad {
        subject: s.to_string(),
        predicate: p.to_string(),
        object: o.to_string(),
        graph_name: match g {
            Some(g) => GraphName::NamedNode(g.to_string()),
            None => GraphName::DefaultGraph,
        },
    }
}

#[test]
fn write_quads_serializes_default_graph_triples_as_plain_lines() {
    let quads = vec![quad("<s>", "<p>", "\"v\"", None)];
    assert_eq!(write_quads(quads.as_slice()), "\t<s> <p> \"v\" .\n");
}

#[test]
fn write_quads_wraps_named_graph_quads_in_graph_blocks() {
    let quads = vec![quad("<s>", "<p>", "<o>", Some("<g>"))];
    assert_eq!(
        write_quads(quads.as_slice()),
        "\tGRAPH <g> { <s> <p> <o> }\n"
    );
}

#[test]
fn write_quads_keeps_the_given_order() {
    let quads = vec![
        quad("<a>", "<p>", "\"1\"", None),
        quad("<b>", "<q>", "\"2\"", Some("<g>")),
        quad("<c>", "<r>", "\"3\"", None),
    ];
    assert_eq!(
        write_quads(quads.as_slice()),
        "\t<a> <p> \"1\" .\n\tGRAPH <g> { <b> <q> \"2\" }\n\t<c> <r> \"3\" .\n"
    );
}

#[test]
fn write_quads_of_nothing_is_empty() {
    let quads: Vec<Quad> = Vec::new();
    assert_eq!(write_quads(quads.as_slice()), "");
}
