use vstd::prelude::*;
use vstd::string::*;
use crate::graph::{graph_of, outcome_of, GraphError, GraphOutcome, Node, NodeView};
use crate::registry::Collection;
use crate::resolve::Exceptions;
use crate::text::{join_all, join_strs, strs};

verus! {

/// The draw.io CSV import header: styles per category, edge styles and layout, then
/// the column names and a legend row.
pub const HEADER: &'static str = r#"## Tendermint public JSON-serializable structures - draw.io CSV export
# label: %name%
# stylename: color
# styles: { \
#            "red": "shape=%shape%;rounded=1;fillColor=#f8cecc;strokeColor=#b85450;strokeWidth=2",\
#            "green": "shape=%shape%;rounded=1;fillColor=#d5e8d4;strokeColor=#82b366;strokeWidth=2",\
#            "blue": "shape=%shape%;rounded=1;fillColor=#dae8fc;strokeColor=#6c8ebf;strokeWidth=2",\
#            "yellow": "shape=%shape%;rounded=1;fillColor=#fff2cc;strokeColor=#d6b656;strokeWidth=2",\
#            "white": "shape=%shape%;rounded=1;fillColor=#ffffff;strokeColor=#000000;strokeWidth=2",\
#            "green_gradient": "shape=%shape%;rounded=1;fillColor=#d5e8d4;strokeColor=#82b366;strokeWidth=2;gradientColor=#ffffff",\
#            "blue_gradient": "shape=%shape%;rounded=1;fillColor=#dae8fc;strokeColor=#6c8ebf;strokeWidth=2;gradientColor=#ffffff",\
#            "yellow_gradient": "shape=%shape%;rounded=1;fillColor=#fff2cc;strokeColor=#d6b656;strokeWidth=2;gradientColor=#ffffff",\
#            "legend": "shape=%shape%;rounded=1;shadow=1;fontSize=16;align=left;whiteSpace=wrap;html=1;fillColor=#d0cee2;strokeWidth=2;strokeColor=#56517e;"\
# }
# connect: {"from":"refs", "to":"name", "invert":false, "style":"curved=1;endArrow=blockThin;endFill=1;"}
# connect: {"from":"refs2", "to":"name", "invert":false, "style":"curved=1;endArrow=blockThin;endFill=1;dashed=1;dashPattern=1 4;strokeColor=none;"}
# namespace: tendermint-
# width: auto
# height: auto
# padding: 10
# ignore: refs,refs2
# nodespacing: 60
# levelspacing: 60
# edgespacing: 60
# layout: horizontalflow
name,shape,color,refs,refs2
"<b>LEGEND<br><br><b style=\"color:#d5e8d4;\">Green:</b> #[derive(Deserialize, Serialize)]<br><b style=\"color:#dae8fc;\">Blue:</b> #[serde(try_from = \"\", into = \"\")]<br><b style=\"color:#fff2cc;\">Yellow:</b> impl Deserialize/Serialize for my_struct {}<br><b style=\"color:#ffffff;\">White:</b> No serialization<br><br>Gradient color: asymmetric serialization<br>Red: invalid combination of features<br>Rounded rectangle: struct<br>Ellipse: enum</b>",rectangle,legend,"#;

/// What `{:?}` prints for a string: quoted, with quotes, backslashes and control
/// chars escaped.
pub uninterp spec fn debug_quoted(s: Seq<char>) -> Seq<char>;

/// Relies on `<str as Debug>::fmt`, through `format!("{:?}", ..)`.
#[verifier::external_body]
fn quote_debug(s: &str) -> (r: String)
    ensures
        r@ == debug_quoted(s@),
{
    format!("{:?}", s)
}

/// One CSV row: name, shape, style, strong targets, weak targets (left empty for
/// the JSON view).
pub open spec fn csv_line(n: NodeView, only_json: bool) -> Seq<char> {
    n.id + ","@ + n.kind.shape_name() + ","@ + n.color.style_name() + ","@ + debug_quoted(
        join_all(n.strong, ","@),
    ) + ","@ + debug_quoted(
        if only_json {
            Seq::<char>::empty()
        } else {
            join_all(n.weak, ","@)
        },
    ) + "\n"@
}

/// The rows of the nodes in order.
pub open spec fn csv_rows(ns: Seq<NodeView>, only_json: bool) -> Seq<char>
    decreases ns.len(),
{
    if ns.len() == 0 {
        Seq::<char>::empty()
    } else {
        csv_rows(ns.drop_last(), only_json) + csv_line(ns.last(), only_json)
    }
}

/// The header with its line break, unless left out.
pub open spec fn csv_header(no_header: bool) -> Seq<char> {
    if no_header {
        Seq::<char>::empty()
    } else {
        HEADER@ + "\n"@
    }
}

/// The CSV row of one node.
fn node_line(n: &Node, only_json: bool) -> (r: String)
    ensures
        r@ == csv_line(n@, only_json),
{
    let mut r = n.id.clone();
    r.append(",");
    r.append(n.kind.to_string().as_str());
    r.append(",");
    r.append(n.color.to_string().as_str());
    r.append(",");
    r.append(quote_debug(join_strs(&n.strong, ",").as_str()).as_str());
    r.append(",");
    let weak = if only_json {
        String::new()
    } else {
        join_strs(&n.weak, ",")
    };
    r.append(quote_debug(weak.as_str()).as_str());
    r.append("\n");
    r
}

impl Collection {
    /// The registry's graph as draw.io CSV: the header unless `no_header`, then one row
    /// per public type in ascending order of identifier. With `only_json` the
    /// uncategorised (white) types are left out before anything is resolved, and the
    /// weak edges are left empty. Fails as `build_graph` does.
    pub fn parse_to_csv(&self, ex: &Exceptions, only_json: bool, no_header: bool) -> (r: Result<String, GraphError>)
        requires
            self.wf(),
        ensures
            match r {
                Ok(s) => graph_of(self@, *ex, only_json) matches GraphOutcome::Nodes(ns) && s@ == csv_header(no_header)
                    + csv_rows(ns, only_json),
                Err(e) => outcome_of(Err(e)) == graph_of(self@, *ex, only_json),
            },
    {
        let nodes = match self.build_graph(ex, only_json) {
            Ok(v) => v,
            Err(e) => {
                return Err(e);
            },
        };
        let ghost ns = nodes@.map_values(|n: Node| n@);
        let mut result = String::new();
        if !no_header {
            result.append(HEADER);
            result.append("\n");
        }
        let ghost head = result@;
        let mut i: usize = 0;
        while i < nodes.len()
            invariant
                i <= nodes@.len(),
                ns == nodes@.map_values(|n: Node| n@),
                result@ == head + csv_rows(ns.subrange(0, i as int), only_json),
            decreases nodes@.len() - i,
        {
            assert(ns.subrange(0, i + 1).drop_last() =~= ns.subrange(0, i as int));
            let line = node_line(&nodes[i], only_json);
            result.append(line.as_str());
            i = i + 1;
        }
        assert(ns.subrange(0, nodes@.len() as int) =~= ns);
        Ok(result)
    }
}

} // verus!
