//! Rendering of a graph as a GraphViz document.

use vstd::prelude::*;
use crate::model::Graph;

verus! {

/// The character of the decimal digit `d`.
pub open spec fn digit(d: nat) -> char {
    if d == 0 {
        '0'
    } else if d == 1 {
        '1'
    } else if d == 2 {
        '2'
    } else if d == 3 {
        '3'
    } else if d == 4 {
        '4'
    } else if d == 5 {
        '5'
    } else if d == 6 {
        '6'
    } else if d == 7 {
        '7'
    } else if d == 8 {
        '8'
    } else {
        '9'
    }
}

/// The decimal numeral of `n`, without leading zeros.
pub open spec fn decimal(n: nat) -> Seq<char>
    decreases n,
{
    if n < 10 {
        seq![digit(n)]
    } else {
        decimal(n / 10).push(digit(n % 10))
    }
}

/// The line that declares the vertex `i` with the fill color `fill`.
pub open spec fn vertex_line(i: nat, fill: Seq<char>) -> Seq<char> {
    "  "@ + decimal(i) + "[regular=true,style=filled,fillcolor="@ + fill + "];\n"@
}

/// The line that declares the edge between `i` and `j` with the color `color`.
pub open spec fn edge_line(i: nat, j: nat, color: Seq<char>) -> Seq<char> {
    "  "@ + decimal(i) + " -- "@ + decimal(j) + "[color="@ + color + "];\n"@
}

/// The two lines that open the document.
pub open spec fn header(layout: Seq<char>) -> Seq<char> {
    "strict graph {\n"@ + "  layout="@ + layout + "; edge[penwidth=4]\n"@
}

/// `String::push_str` of std: `t` is appended to `s`.
#[verifier::external_body]
fn append(s: &mut String, t: &str)
    ensures
        final(s)@ == old(s)@ + t@,
{
    s.push_str(t)
}

/// `format!` of std with `{}` on a `u64`: its decimal numeral.
#[verifier::external_body]
fn decimal_text(n: u64) -> (t: String)
    ensures
        t@ == decimal(n as nat),
{
    format!("{}", n)
}

impl Graph {
    /// The palette entry for the node color of node `i`.
    pub open spec fn fill_of(&self, i: int, node_colors: Seq<&str>) -> Seq<char> {
        node_colors[(self.nodes@[i].color as usize) as int % node_colors.len() as int]@
    }

    /// The palette entry for the stored color `ed` of a concrete edge.
    pub open spec fn stroke_of(ed: u64, edge_colors: Seq<&str>) -> Seq<char> {
        edge_colors[(((ed - 2) as u64) as usize) as int % edge_colors.len() as int]@
    }

    /// The vertex lines of the nodes `0 .. upto`.
    pub open spec fn vertex_lines(&self, upto: int, node_colors: Seq<&str>) -> Seq<char>
        decreases upto,
    {
        if upto <= 0 {
            Seq::empty()
        } else {
            self.vertex_lines(upto - 1, node_colors) + vertex_line(
                (upto - 1) as nat,
                self.fill_of(upto - 1, node_colors),
            )
        }
    }

    /// The edge lines of the concrete entries `0 .. upto` of row `i`.
    pub open spec fn row_lines(&self, i: int, upto: int, edge_colors: Seq<&str>) -> Seq<char>
        decreases upto,
    {
        if upto <= 0 {
            Seq::empty()
        } else if self.edges@[i]@[upto - 1] < 2 {
            self.row_lines(i, upto - 1, edge_colors)
        } else {
            self.row_lines(i, upto - 1, edge_colors) + edge_line(
                i as nat,
                (upto - 1) as nat,
                Self::stroke_of(self.edges@[i]@[upto - 1], edge_colors),
            )
        }
    }

    /// The edge lines of the rows `0 .. upto`.
    pub open spec fn edge_lines(&self, upto: int, edge_colors: Seq<&str>) -> Seq<char>
        decreases upto,
    {
        if upto <= 0 {
            Seq::empty()
        } else {
            self.edge_lines(upto - 1, edge_colors) + self.row_lines(
                upto - 1,
                upto,
                edge_colors,
            )
        }
    }

    /// The whole document: the opening lines, one line per node, one line
    /// per concrete entry of the matrix, and the closing brace.
    pub open spec fn dot(&self, layout: Seq<char>, node_colors: Seq<&str>, edge_colors: Seq<&str>) -> Seq<
        char,
    > {
        header(layout) + self.vertex_lines(self.size(), node_colors) + self.edge_lines(
            self.size(),
            edge_colors,
        ) + "}\n"@
    }

    /// Whether the matrix stores a concrete color.
    pub open spec fn has_concrete(&self) -> bool {
        exists|i: int, j: int| 0 <= j <= i < self.size() && #[trigger] self.edges@[i]@[j] >= 2
    }

    /// Generates a GraphViz dot format. A node is filled with the palette
    /// entry at its color modulo the palette's length, an edge is drawn with
    /// the entry at its color less 2 modulo the palette's length.
    pub fn graphviz(&self, layout: &str, node_colors: &[&str], edge_colors: &[&str]) -> (s: String)
        requires
            self.well_shaped(),
            self.size() > 0 ==> node_colors@.len() > 0,
            self.has_concrete() ==> edge_colors@.len() > 0,
        ensures
            s@ == self.dot(layout@, node_colors@, edge_colors@),
    {
        let n = self.nodes.len();
        let mut s = String::new();
        append(&mut s, "strict graph {\n");
        append(&mut s, "  layout=");
        append(&mut s, layout);
        append(&mut s, "; edge[penwidth=4]\n");
        assert(s@ =~= header(layout@));
        let mut i: usize = 0;
        while i < n
            invariant
                self.well_shaped(),
                n == self.size(),
                i <= n,
                n > 0 ==> node_colors@.len() > 0,
                s@ == header(layout@) + self.vertex_lines(i as int, node_colors@),
            decreases n - i,
        {
            let ghost before = s@;
            let fill = node_colors[self.nodes[i].color as usize % node_colors.len()];
            let number = decimal_text(i as u64);
            append(&mut s, "  ");
            append(&mut s, number.as_str());
            append(&mut s, "[regular=true,style=filled,fillcolor=");
            append(&mut s, fill);
            append(&mut s, "];\n");
            assert(s@ =~= before + vertex_line(i as nat, self.fill_of(i as int, node_colors@)));
            assert(s@ =~= header(layout@) + self.vertex_lines(i as int + 1, node_colors@));
            i += 1;
        }
        let ghost top = s@;
        let mut i: usize = 0;
        while i < n
            invariant
                self.well_shaped(),
                n == self.size(),
                i <= n,
                self.has_concrete() ==> edge_colors@.len() > 0,
                s@ == top + self.edge_lines(i as int, edge_colors@),
            decreases n - i,
        {
            let ghost row_start = s@;
            let mut j: usize = 0;
            while j <= i
                invariant
                    self.well_shaped(),
                    n == self.size(),
                    i < n,
                    j <= i + 1,
                    self.has_concrete() ==> edge_colors@.len() > 0,
                    s@ == row_start + self.row_lines(i as int, j as int, edge_colors@),
                decreases i + 1 - j,
            {
                let ed = self.edges[i][j];
                if ed >= 2 {
                    assert(self.has_concrete());
                    let ghost before = s@;
                    let stroke = edge_colors[(ed - 2) as usize % edge_colors.len()];
                    let from = decimal_text(i as u64);
                    let to = decimal_text(j as u64);
                    append(&mut s, "  ");
                    append(&mut s, from.as_str());
                    append(&mut s, " -- ");
                    append(&mut s, to.as_str());
                    append(&mut s, "[color=");
                    append(&mut s, stroke);
                    append(&mut s, "];\n");
                    assert(s@ =~= before + edge_line(
                        i as nat,
                        j as nat,
                        Self::stroke_of(ed, edge_colors@),
                    ));
                }
                assert(s@ =~= row_start + self.row_lines(i as int, j as int + 1, edge_colors@));
                j += 1;
            }
            assert(s@ =~= top + self.edge_lines(i as int + 1, edge_colors@));
            i += 1;
        }
        append(&mut s, "}\n");
        assert(s@ =~= self.dot(layout@, node_colors@, edge_colors@));
        s
    }
    /// The node colors `0 .. upto`, each followed by a space.
    pub open spec fn color_cells(&self, upto: int) -> Seq<char>
        decreases upto,
    {
        if upto <= 0 {
            Seq::empty()
        } else {
            self.color_cells(upto - 1) + decimal(self.nodes@[upto - 1].color as nat) + " "@
        }
    }

    /// The colors of the pairs `(i, 0) .. (i, upto)`, each followed by a space.
    pub open spec fn row_cells(&self, i: int, upto: int) -> Seq<char>
        decreases upto,
    {
        if upto <= 0 {
            Seq::empty()
        } else {
            self.row_cells(i, upto - 1) + decimal(self.edge(i, upto - 1) as nat) + " "@
        }
    }

    /// The rows `0 .. upto` of the full symmetric matrix, one per line.
    pub open spec fn matrix_rows(&self, upto: int) -> Seq<char>
        decreases upto,
    {
        if upto <= 0 {
            Seq::empty()
        } else {
            self.matrix_rows(upto - 1) + self.row_cells(upto - 1, self.size()) + "\n"@
        }
    }

    /// The node colors on one line, a separator line, then the full
    /// symmetric matrix.
    pub open spec fn listing(&self) -> Seq<char> {
        self.color_cells(self.size()) + "\n========================================\n"@
            + self.matrix_rows(self.size())
    }

    /// Writes the graph out as text: the node colors on one line, a
    /// separator line, then the full symmetric matrix.
    pub fn to_text(&self) -> (s: String)
        requires
            self.well_shaped(),
        ensures
            s@ == self.listing(),
    {
        let n = self.nodes.len();
        let mut s = String::new();
        let mut i: usize = 0;
        while i < n
            invariant
                n == self.size(),
                i <= n,
                s@ == self.color_cells(i as int),
            decreases n - i,
        {
            let ghost before = s@;
            let number = decimal_text(self.nodes[i].color);
            append(&mut s, number.as_str());
            append(&mut s, " ");
            assert(s@ =~= self.color_cells(i as int + 1));
            i += 1;
        }
        append(&mut s, "\n========================================\n");
        let ghost top = s@;
        let mut i: usize = 0;
        while i < n
            invariant
                self.well_shaped(),
                n == self.size(),
                i <= n,
                s@ == top + self.matrix_rows(i as int),
            decreases n - i,
        {
            let ghost row_start = s@;
            let mut j: usize = 0;
            while j < n
                invariant
                    self.well_shaped(),
                    n == self.size(),
                    i < n,
                    j <= n,
                    s@ == row_start + self.row_cells(i as int, j as int),
                decreases n - j,
            {
                let number = decimal_text(self.get((i, j)));
                append(&mut s, number.as_str());
                append(&mut s, " ");
                assert(s@ =~= row_start + self.row_cells(i as int, j as int + 1));
                j += 1;
            }
            append(&mut s, "\n");
            assert(s@ =~= top + self.matrix_rows(i as int + 1));
            i += 1;
        }
        s
    }
}

} // verus!
