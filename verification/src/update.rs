//! Textual serialization of update data blocks.
//!
//! An update's `INSERT DATA` / `DELETE DATA` payload lists quads one per
//! line: default-graph triples as `s p o .`, named-graph quads wrapped in a
//! `GRAPH` block.  The terms arrive here already rendered in SPARQL syntax by
//! the data-model layer.

use vstd::prelude::*;
use vstd::string::StringExecFns;

verus! {

/// The graph a serialized quad belongs to: the default graph, or a named node
/// already rendered in SPARQL syntax.
pub enum GraphName {
    DefaultGraph,
    NamedNode(String),
}

/// One quad of an update data block, each term already rendered in SPARQL
/// syntax.
pub struct Quad {
    pub subject: String,
    pub predicate: String,
    pub object: String,
    pub graph_name: GraphName,
}

/// The serialized line of one quad.
pub open spec fn spec_write_quad_line(q: Quad) -> Seq<char> {
    match q.graph_name {
        GraphName::DefaultGraph => "\t"@ + q.subject@ + " "@ + q.predicate@ + " "@ + q.object@
            + " .\n"@,
        GraphName::NamedNode(g) => "\tGRAPH "@ + g@ + " { "@ + q.subject@ + " "@ + q.predicate@
            + " "@ + q.object@ + " }\n"@,
    }
}

/// The serialized data block: the quads' lines in order.
pub open spec fn spec_write_quads(qs: Seq<Quad>) -> Seq<char>
    decreases qs.len(),
{
    if qs.len() == 0 {
        Seq::<char>::empty()
    } else {
        spec_write_quads(qs.drop_last()) + spec_write_quad_line(qs.last())
    }
}

/// Serializes the quads of an update data block, one line each: plain
/// `subject predicate object .` lines for the default graph, `GRAPH` blocks
/// for named graphs.
pub fn write_quads(quads: &[Quad]) -> (r: String)
    ensures
        r@ == spec_write_quads(quads@),
{
    let mut out = String::new();
    let mut i: usize = 0;
    while i < quads.len()
        invariant
            i <= quads@.len(),
            out@ == spec_write_quads(quads@.take(i as int)),
        decreases quads@.len() - i,
    {
        let q = &quads[i];
        match &q.graph_name {
            GraphName::DefaultGraph => {
                out.append("\t");
                out.append(q.subject.as_str());
                out.append(" ");
                out.append(q.predicate.as_str());
                out.append(" ");
                out.append(q.object.as_str());
                out.append(" .\n");
            },
            GraphName::NamedNode(g) => {
                out.append("\tGRAPH ");
                out.append(g.as_str());
                out.append(" { ");
                out.append(q.subject.as_str());
                out.append(" ");
                out.append(q.predicate.as_str());
                out.append(" ");
                out.append(q.object.as_str());
                out.append(" }\n");
            },
        }
        proof {
            assert(quads@.take(i + 1).drop_last() =~= quads@.take(i as int));
            assert(quads@.take(i + 1).last() == quads@[i as int]);
            assert(out@ =~= spec_write_quads(quads@.take(i + 1)));
        }
        i = i + 1;
    }
    proof {
        assert(quads@.take(quads@.len() as int) =~= quads@);
    }
    out
}

} // verus!
