use graph_solver::candidates::insert_sorted;
use graph_solver::predicates::check_opposite;
use graph_solver::search::{SearchState, Solution, SolveSettings};
use graph_solver::{Color, Constraint, Graph, Node, DISCONNECTED_EDGE, EMPTY_EDGE};
use quickbacktrack::Puzzle;

fn node(color: Color, wants: &[(Color, Color)]) -> Node {
    Node {
        color,
        self_connected: false,
        edges: wants.iter().map(|&(edge, node)| Constraint { edge, node }).collect(),
    }
}

fn uniform(n: usize, degree: usize, edge: Color) -> Graph {
    let mut g = Graph::new();
    for _ in 0..n {
        g.push(node(0, &vec![(edge, 0); degree]));
    }
    g
}

fn concrete_edges(g: &Graph) -> usize {
    let n = g.nodes.len();
    let mut count = 0;
    for i in 0..n {
        for j in 0..i {
            if g.get((i, j)) >= 2 {
                count += 1;
            }
        }
    }
    count
}

fn degree(g: &Graph, i: usize) -> usize {
    (0..g.nodes.len()).filter(|&j| j != i && g.get((i, j)) >= 2).count()
}

fn solve(g: Graph) -> Option<Solution> {
    g.solve(SolveSettings::new())
}

#[test]
fn simple1() {
    let mut g = Graph::new();
    let a = Node {
        color: 1,
        self_connected: false,
        edges: vec![Constraint { edge: 2, node: 1 }],
    };
    assert_eq!(g.nodes.len(), 0);
    g.push(a.clone());
    assert_eq!(g.node_satisfied(0), vec![Constraint { edge: 2, node: 1 }]);
    g.push(a.clone());
    assert_eq!(g.node_satisfied(0), vec![Constraint { edge: 2, node: 1 }]);
    assert_eq!(g.node_satisfied(1), vec![Constraint { edge: 2, node: 1 }]);
    assert_eq!(g.colors((0, 1)), vec![1, 2]);
    g.set((0, 1), 2);
    assert_eq!(g.node_satisfied(0), vec![]);
    g.set((0, 1), 2);
    assert!(g.all_satisfied());
}

#[test]
fn reserved_colors() {
    assert_eq!(EMPTY_EDGE, 0);
    assert_eq!(DISCONNECTED_EDGE, 1);
}

#[test]
fn new_graph_is_empty_with_rules_off() {
    let g = Graph::new();
    assert_eq!(g.nodes.len(), 0);
    assert_eq!(g.edges.len(), 0);
    assert_eq!(g.pairs.len(), 0);
    assert!(!g.no_triangles && !g.meet_quad && !g.connected);
    assert_eq!(g.commute_quad, None);
    let d = Graph::default();
    assert_eq!(d.nodes.len(), 0);
}

#[test]
fn push_grows_lower_triangle_of_undecided_edges() {
    let g = uniform(4, 2, 2);
    assert_eq!(g.edges.len(), 4);
    for i in 0..4 {
        assert_eq!(g.edges[i].len(), i + 1);
        for j in 0..4 {
            assert_eq!(g.get((i, j)), 0);
        }
    }
    assert_eq!(g.cache_node_satisfied, vec![false; 4]);
}

#[test]
fn get_is_symmetric() {
    let mut g = uniform(5, 2, 2);
    g.set((1, 3), 7);
    g.set((4, 0), 9);
    g.set((2, 2), 5);
    for i in 0..5 {
        for j in 0..5 {
            assert_eq!(g.get((i, j)), g.get((j, i)));
        }
    }
    assert_eq!(g.get((3, 1)), 7);
    assert_eq!(g.get((0, 4)), 9);
    assert_eq!(g.edges[3][1], 7);
    assert_eq!(g.edges[4][0], 9);
}

#[test]
fn set_again_changes_nothing() {
    let mut g = uniform(4, 2, 2);
    g.set((0, 1), 2);
    g.set((0, 2), 1);
    let once = g.edges.clone();
    g.set((0, 1), 2);
    g.set((0, 2), 1);
    assert_eq!(g.edges, once);
    let a = solve(g.clone()).unwrap();
    g.set((0, 1), 2);
    let b = solve(g).unwrap();
    assert_eq!(a.puzzle.edges, b.puzzle.edges);
}

#[test]
fn push_pair_stores_low_then_high() {
    let mut g = uniform(4, 1, 2);
    g.push_pair((3, 1));
    g.push_pair((0, 2));
    assert_eq!(g.pairs, vec![(1, 3), (0, 2)]);
    assert!(!g.pairs_satisfied());
    g.set((1, 3), 2);
    assert!(!g.pairs_satisfied());
    g.set((2, 0), 1);
    assert!(!g.pairs_satisfied());
    g.set((2, 0), 2);
    assert!(g.pairs_satisfied());
}

#[test]
fn node_satisfied_counts_duplicates_and_keeps_order() {
    let mut g = Graph::new();
    g.push(node(0, &[(2, 0), (3, 1), (2, 0), (3, 0)]));
    g.push(node(0, &[]));
    g.push(node(1, &[]));
    g.push(node(0, &[]));
    assert_eq!(g.node_satisfied(0).len(), 4);
    g.set((0, 1), 2);
    assert_eq!(
        g.node_satisfied(0),
        vec![
            Constraint { edge: 3, node: 1 },
            Constraint { edge: 2, node: 0 },
            Constraint { edge: 3, node: 0 }
        ]
    );
    g.set((0, 2), 3);
    assert_eq!(
        g.node_satisfied(0),
        vec![Constraint { edge: 2, node: 0 }, Constraint { edge: 3, node: 0 }]
    );
    g.set((0, 3), 3);
    assert_eq!(g.node_satisfied(0), vec![Constraint { edge: 2, node: 0 }]);
    assert!(g.node_satisfied(1).is_empty());
    assert!(!g.all_satisfied());
}

#[test]
fn no_edge_matches_no_template_entry() {
    let mut g = Graph::new();
    g.push(node(0, &[(1, 0)]));
    g.push(node(0, &[]));
    g.set((0, 1), 1);
    assert_eq!(g.node_satisfied(0), vec![Constraint { edge: 1, node: 0 }]);
}

#[test]
fn triangles_are_found() {
    let mut g = uniform(4, 0, 2);
    assert!(!g.has_triangles());
    g.set((0, 1), 2);
    g.set((1, 3), 3);
    assert!(!g.has_triangles());
    g.set((0, 3), 1);
    assert!(!g.has_triangles());
    g.set((0, 3), 4);
    assert!(g.has_triangles());
    g.set((0, 3), 0);
    assert!(!g.has_triangles());
}

#[test]
fn connected_follows_concrete_edges_from_node_zero() {
    let mut g = uniform(4, 0, 2);
    assert!(!g.is_connected());
    g.set((0, 1), 2);
    g.set((1, 2), 2);
    assert!(!g.is_connected());
    g.set((2, 3), 1);
    assert!(!g.is_connected());
    g.set((2, 3), 5);
    assert!(g.is_connected());
    g.set((1, 2), 1);
    assert!(!g.is_connected());
    assert!(Graph::new().is_connected());
    assert!(uniform(1, 0, 2).is_connected());
}

#[test]
fn upper_right_cut_needs_even_size_and_all_no_edges() {
    let mut g = uniform(4, 0, 2);
    assert!(!g.is_upper_right_disconnected());
    g.set((0, 2), 1);
    g.set((0, 3), 1);
    g.set((1, 2), 1);
    assert!(!g.is_upper_right_disconnected());
    g.set((1, 3), 1);
    assert!(g.is_upper_right_disconnected());
    g.set((1, 3), 0);
    assert!(!g.is_upper_right_disconnected());
    assert!(!uniform(3, 0, 2).is_upper_right_disconnected());
    assert!(Graph::new().is_upper_right_disconnected());
}

fn cycle4(a: Color, b: Color, c: Color, d: Color) -> Graph {
    let mut g = uniform(4, 0, 2);
    g.set((0, 1), a);
    g.set((1, 2), b);
    g.set((2, 3), c);
    g.set((3, 0), d);
    g
}

#[test]
fn anticommute_wants_exactly_one_flipped_pair() {
    // Opposite pairs (2, 3) and (4, 4): one sign flip.
    let g = cycle4(2, 4, 3, 4);
    assert!(g.commute_quad_satisfied(false));
    assert!(!g.commute_quad_satisfied(true));
    assert!(cycle4(2, 4, 2, 5).commute_quad_satisfied(false));
    assert!(cycle4(2, 5, 3, 5).commute_quad_satisfied(false));
}

#[test]
fn anticommute_rejects_two_flips_no_flip_and_mixed_bases() {
    assert!(!cycle4(2, 4, 3, 5).commute_quad_satisfied(false));
    assert!(!cycle4(2, 4, 2, 4).commute_quad_satisfied(false));
    assert!(!cycle4(2, 4, 6, 5).commute_quad_satisfied(false));
    assert!(!cycle4(2, 4, 3, 6).commute_quad_satisfied(false));
}

#[test]
fn commute_wants_equal_opposite_edges() {
    assert!(cycle4(2, 3, 2, 3).commute_quad_satisfied(true));
    assert!(!cycle4(2, 3, 2, 4).commute_quad_satisfied(true));
    assert!(uniform(4, 0, 2).commute_quad_satisfied(true));
    let mut open = cycle4(2, 3, 9, 3);
    open.set((2, 3), 1);
    assert!(open.commute_quad_satisfied(true));
    assert!(open.commute_quad_satisfied(false));
}

#[test]
fn opposite_rule_values() {
    assert!(check_opposite(true, 2, 2, 3, 3));
    assert!(!check_opposite(true, 2, 3, 3, 3));
    assert!(check_opposite(false, 2, 3, 4, 4));
    assert!(check_opposite(false, 4, 4, 7, 6));
    assert!(!check_opposite(false, 2, 3, 4, 5));
    assert!(!check_opposite(false, 2, 2, 4, 4));
    assert!(!check_opposite(false, 2, 3, 4, 6));
}

#[test]
fn meet_quad_takes_triangles_and_quads() {
    let g = cycle4(2, 2, 2, 2);
    assert!(g.meet_quad_satisfied());
    for i in 0..4 {
        assert!(g.node_meets_quad(i));
    }
    let mut t = uniform(4, 0, 2);
    t.set((0, 1), 2);
    t.set((1, 2), 2);
    t.set((0, 2), 2);
    assert!(t.node_meets_quad(0) && t.node_meets_quad(1) && t.node_meets_quad(2));
    assert!(!t.node_meets_quad(3));
    assert!(!t.meet_quad_satisfied());
    let mut path = uniform(4, 0, 2);
    path.set((0, 1), 2);
    path.set((1, 2), 2);
    path.set((2, 3), 2);
    assert!(!path.meet_quad_satisfied());
    assert!(Graph::new().meet_quad_satisfied());
}

#[test]
fn colors_are_sorted_and_unique() {
    let mut g = Graph::new();
    g.push(node(0, &[(5, 0), (3, 0), (5, 0), (2, 1), (4, 0)]));
    g.push(node(0, &[(4, 0), (5, 0), (3, 1), (5, 0)]));
    assert_eq!(g.colors((0, 1)), vec![1, 4, 5]);
    assert_eq!(g.colors((1, 0)), vec![1, 4, 5]);
    assert_eq!(g.colors((0, 0)), Vec::<Color>::new());
    g.set((0, 1), 1);
    assert_eq!(g.colors((0, 1)), Vec::<Color>::new());
}

#[test]
fn colors_allow_self_loop_only_where_template_says() {
    let mut g = Graph::new();
    g.push(Node { color: 0, self_connected: true, edges: vec![Constraint { edge: 2, node: 0 }] });
    g.push(node(0, &[]));
    assert_eq!(g.colors((0, 0)), vec![1, 2]);
    assert_eq!(g.colors((1, 1)), Vec::<Color>::new());
    assert_eq!(g.colors((0, 1)), vec![1]);
}

#[test]
fn colors_empty_once_a_rule_is_broken() {
    let mut g = uniform(4, 3, 2);
    g.set((0, 1), 2);
    g.set((1, 2), 2);
    g.set((0, 2), 2);
    assert_eq!(g.colors((0, 3)), vec![1, 2]);
    g.no_triangles = true;
    assert_eq!(g.colors((0, 3)), Vec::<Color>::new());

    let mut h = uniform(4, 1, 2);
    h.set((0, 2), 1);
    h.set((0, 3), 1);
    h.set((1, 2), 1);
    h.set((1, 3), 1);
    assert_eq!(h.colors((0, 1)), vec![1, 2]);
    h.connected = true;
    assert_eq!(h.colors((0, 1)), Vec::<Color>::new());

    let mut q = cycle4(2, 3, 2, 4);
    q.push(node(0, &[(2, 0)]));
    assert_eq!(q.colors((0, 4)), vec![1]);
    q.commute_quad = Some(true);
    assert_eq!(q.colors((0, 4)), Vec::<Color>::new());
}

#[test]
fn insert_sorted_keeps_order_and_skips_repeats() {
    let mut v: Vec<Color> = vec![];
    insert_sorted(&mut v, 5);
    insert_sorted(&mut v, 2);
    insert_sorted(&mut v, 9);
    insert_sorted(&mut v, 5);
    insert_sorted(&mut v, 1);
    insert_sorted(&mut v, 9);
    assert_eq!(v, vec![1, 2, 5, 9]);
}

#[test]
fn min_colors_takes_first_smallest() {
    let mut g = Graph::new();
    g.push(node(0, &[(2, 0), (3, 0)]));
    g.push(node(0, &[(2, 0), (3, 0)]));
    g.push(node(0, &[(2, 0)]));
    assert_eq!(g.colors((0, 1)).len(), 3);
    assert_eq!(g.colors((0, 2)).len(), 2);
    assert_eq!(g.colors((1, 2)).len(), 2);
    assert_eq!(g.min_colors(), Some((0, 2)));
    assert_eq!(g.fst_empty(), Some((0, 1)));
    g.set((0, 2), 2);
    assert_eq!(g.min_colors(), Some((1, 2)));
    g.set((1, 2), 1);
    assert_eq!(g.min_colors(), Some((0, 1)));
    assert_eq!(g.fst_empty(), Some((0, 1)));
    g.set((0, 1), 3);
    assert_eq!(g.min_colors(), None);
    assert_eq!(g.fst_empty(), None);
    assert_eq!(Graph::new().min_colors(), None);
}

#[test]
fn forced_color_is_the_only_candidate() {
    let mut g = Graph::new();
    g.push(node(0, &[(2, 0)]));
    g.push(node(0, &[(2, 0)]));
    g.push(node(0, &[]));
    assert_eq!(g.forced((0, 1)), None);
    assert_eq!(g.forced((0, 2)), Some(1));
    assert_eq!(g.forced((0, 0)), None);
}

#[test]
fn is_solved_checks_every_rule() {
    let mut g = cycle4(2, 2, 2, 2);
    for i in 0..4 {
        g.nodes[i].edges = vec![Constraint { edge: 2, node: 0 }; 2];
    }
    assert!(g.is_solved());
    g.connected = true;
    g.meet_quad = true;
    g.no_triangles = true;
    g.commute_quad = Some(true);
    assert!(g.is_solved());
    g.commute_quad = Some(false);
    assert!(!g.is_solved());
    g.commute_quad = None;
    g.push_pair((0, 2));
    assert!(!g.is_solved());
}

#[test]
fn remove_resets_what_the_other_has() {
    let mut g = uniform(3, 0, 2);
    g.set((0, 1), 2);
    g.set((1, 2), 3);
    g.set((0, 2), 1);
    let mut other = uniform(3, 0, 2);
    other.set((0, 1), 2);
    other.set((2, 2), 1);
    g.remove(&other);
    assert_eq!(g.get((0, 1)), 0);
    assert_eq!(g.get((1, 2)), 3);
    assert_eq!(g.get((0, 2)), 1);
}

#[test]
fn set_clears_cells_by_the_old_color() {
    let mut g = cycle4(2, 2, 2, 2);
    for i in 0..4 {
        g.nodes[i].edges = vec![Constraint { edge: 2, node: 0 }; 2];
    }
    g.commute_quad = Some(true);
    g.refresh_cache();
    assert!(g.cache_connected);
    assert!(g.cache_commute_quad_satisfied);
    assert!(!g.cache_has_triangles);
    assert!(!g.cache_upper_right_disconnected);
    assert_eq!(g.cache_node_satisfied, vec![true; 4]);
    g.set((0, 2), 1);
    assert!(g.cache_connected);
    assert!(g.cache_commute_quad_satisfied);
    assert_eq!(g.cache_node_satisfied, vec![true; 4]);
    g.set((1, 3), 2);
    assert!(g.cache_connected);
    assert!(!g.cache_commute_quad_satisfied);
    assert_eq!(g.cache_node_satisfied, vec![true; 4]);
    g.set((1, 3), 1);
    assert!(!g.cache_connected);
    assert_eq!(g.cache_node_satisfied, vec![true, false, true, false]);
    g.clear_cache();
    assert_eq!(g.cache_node_satisfied, vec![false; 4]);
}

#[test]
fn set_cell_answers_match_recomputation() {
    let mut g = cycle4(2, 3, 2, 3);
    g.set((0, 2), 4);
    g.commute_quad = Some(true);
    let before = (
        g.has_triangles(),
        g.is_connected(),
        g.is_upper_right_disconnected(),
        g.commute_quad_satisfied(true),
        g.node_satisfied(0),
    );
    g.refresh_cache();
    assert!(g.cache_has_triangles);
    let after = (
        g.has_triangles(),
        g.is_connected(),
        g.is_upper_right_disconnected(),
        g.commute_quad_satisfied(true),
        g.node_satisfied(0),
    );
    assert_eq!(before, after);
}

#[test]
fn no_edge_never_adds_a_triangle_or_breaks_a_quad() {
    let mut g = cycle4(2, 3, 2, 3);
    let t = g.has_triangles();
    let c = g.commute_quad_satisfied(true);
    assert_eq!(g.colors((0, 2)), vec![1]);
    g.set((0, 2), 1);
    assert_eq!(g.has_triangles(), t);
    assert_eq!(g.commute_quad_satisfied(true), c);
}

#[test]
fn duplicate_copies_everything_but_the_cells() {
    let mut g = cycle4(2, 3, 2, 3);
    g.push_pair((0, 1));
    g.meet_quad = true;
    g.refresh_cache();
    let d = g.duplicate();
    assert_eq!(d.nodes, g.nodes);
    assert_eq!(d.edges, g.edges);
    assert_eq!(d.pairs, g.pairs);
    assert!(d.meet_quad);
    assert!(!d.cache_connected);
}

#[test]
fn adopt_takes_only_a_solving_matrix() {
    let g = uniform(2, 1, 2);
    assert!(g.clone().adopt(vec![vec![0], vec![1, 0]], 3).is_none());
    assert!(g.clone().adopt(vec![vec![0], vec![2]], 3).is_none());
    assert!(g.clone().adopt(vec![vec![0]], 3).is_none());
    let s = g.adopt(vec![vec![0], vec![2, 0]], 3).unwrap();
    assert_eq!(s.iterations, 3);
    assert_eq!(s.strategy, None);
    assert_eq!(s.puzzle.get((0, 1)), 2);
    assert_eq!(s.puzzle.nodes.len(), 2);
}

#[test]
fn search_state_ignores_positions_outside() {
    let mut s = SearchState::new(uniform(2, 1, 2));
    assert_eq!(s.len(), 2);
    assert_eq!(s.read((0, 5)), 0);
    s.write((0, 5), 2);
    s.write((0, 1), 2);
    assert_eq!(s.read((1, 0)), 2);
    assert_eq!(s.options((0, 7)), Vec::<Color>::new());
    assert_eq!(s.next_position(), None);
    let other = SearchState::new(uniform(2, 1, 2));
    s.subtract(&other);
    assert_eq!(s.read((1, 0)), 2);
    let g = s.into_graph();
    assert_eq!(g.get((0, 1)), 2);
}

#[test]
fn settings_builders() {
    let s = SolveSettings::new();
    assert!(!s.debug);
    assert_eq!(s.sleep_ms, 0);
    let s = s.debug(true).sleep_ms(20);
    assert!(s.debug);
    assert_eq!(s.sleep_ms, 20);
}

#[test]
fn solve_zero_nodes() {
    let s = solve(Graph::new()).unwrap();
    assert_eq!(s.puzzle.nodes.len(), 0);
    assert_eq!(s.puzzle.edges.len(), 0);
}

#[test]
fn solve_one_free_node() {
    let mut g = Graph::new();
    g.push(node(7, &[]));
    let s = solve(g).unwrap();
    assert_eq!(s.puzzle.nodes.len(), 1);
    assert_eq!(s.iterations, 1);
    assert!(s.puzzle.is_solved());
}

#[test]
fn solve_fails_when_template_wants_too_many_edges() {
    assert!(solve(uniform(3, 3, 2)).is_none());
    let mut g = Graph::new();
    g.push(node(0, &[(2, 1), (2, 1)]));
    g.push(node(1, &[(2, 0)]));
    g.push(node(0, &[]));
    assert!(solve(g).is_none());
}

#[test]
fn solve_square() {
    let s = solve(uniform(4, 2, 2)).unwrap();
    let g = &s.puzzle;
    assert_eq!(concrete_edges(g), 4);
    for i in 0..4 {
        assert_eq!(degree(g, i), 2);
        assert_eq!(g.get((i, i)), 0);
    }
    assert!(g.is_connected());
    assert!(!g.has_triangles());
    // The search tries the highest color first, pair by pair in row-major order.
    assert_eq!(g.edges, vec![vec![0], vec![2, 0], vec![2, 1, 0], vec![1, 2, 2, 0]]);
}

#[test]
fn pinned_square_is_completed_around_the_pins() {
    let mut g = uniform(4, 2, 2);
    g.set((2, 0), 1);
    let s = solve(g).unwrap();
    let g = &s.puzzle;
    assert_eq!(g.get((1, 0)), 2);
    assert_eq!(g.get((2, 0)), 1);
    assert_eq!(g.get((2, 1)), 2);
    assert_eq!(g.get((3, 0)), 2);
    assert_eq!(g.get((3, 1)), 1);
    assert_eq!(g.get((3, 2)), 2);
}

#[test]
fn solve_square_two_colors() {
    let mut g = Graph::new();
    for _ in 0..4 {
        g.push(node(0, &[(2, 0), (3, 0)]));
    }
    let s = solve(g).unwrap();
    let g = &s.puzzle;
    assert_eq!(concrete_edges(g), 4);
    let mut no_edges = 0;
    for i in 0..4 {
        let mut twos = 0;
        let mut threes = 0;
        for j in 0..4 {
            match g.get((i, j)) {
                2 => twos += 1,
                3 => threes += 1,
                1 => no_edges += 1,
                _ => {}
            }
        }
        assert_eq!((twos, threes), (1, 1));
    }
    assert_eq!(no_edges / 2, 2);
    assert!(g.is_connected());
}

#[test]
fn solve_cube() {
    let mut g = uniform(8, 3, 2);
    g.no_triangles = true;
    let s = solve(g).unwrap();
    let g = &s.puzzle;
    assert_eq!(concrete_edges(g), 12);
    assert!(!g.has_triangles());
    for i in 0..8 {
        assert_eq!(degree(g, i), 3);
    }
    assert!(g.is_solved());
}

#[test]
fn solve_pentagon() {
    let s = solve(uniform(5, 2, 2)).unwrap();
    let g = &s.puzzle;
    assert_eq!(concrete_edges(g), 5);
    for i in 0..5 {
        assert_eq!(degree(g, i), 2);
    }
    assert!(g.is_connected());
    assert!(!g.has_triangles());
}

fn bridges() -> Graph {
    let mut g = Graph::new();
    let f = |black: usize, red: usize| {
        let mut wants = vec![(2, 0); black];
        wants.extend(vec![(3, 0); red]);
        node(0, &wants)
    };
    g.push(f(1, 1));
    g.push(f(2, 1));
    g.push(f(1, 1));
    g.push(f(1, 2));
    g.push(f(1, 3));
    g.push(f(0, 3));
    g.push(f(1, 1));
    g.push(f(2, 1));
    g.push(f(1, 1));
    g.set((0, 1), 2);
    g.set((1, 2), 2);
    g.set((0, 2), 1);
    g.set((1, 4), 3);
    g.set((2, 3), 1);
    g.set((2, 4), 1);
    g.set((3, 5), 1);
    g.set((3, 7), 1);
    g.set((3, 4), 2);
    g.connected = true;
    g
}

#[test]
fn solve_seven_bridges_keeps_pinned_edges() {
    let start = bridges();
    let s = solve(start.clone()).unwrap();
    let g = &s.puzzle;
    for i in 0..9 {
        for j in 0..9 {
            if start.get((i, j)) != 0 {
                assert_eq!(g.get((i, j)), start.get((i, j)));
            }
        }
    }
    assert!(g.is_connected());
    assert!(g.is_solved());
    let again = solve(s.puzzle.clone()).unwrap();
    assert_eq!(again.puzzle.edges, s.puzzle.edges);
}

#[test]
fn solve_solved_graph_returns_it() {
    let first = solve(uniform(4, 2, 2)).unwrap();
    let again = solve(first.puzzle.clone()).unwrap();
    assert_eq!(again.puzzle.edges, first.puzzle.edges);
    assert_eq!(again.puzzle.nodes, first.puzzle.nodes);
}

#[test]
fn solve_adinkra_1_1() {
    let mut g = Graph::new();
    g.push(node(0, &[(2, 1)]));
    g.push(node(1, &[(2, 0)]));
    let s = solve(g).unwrap();
    assert_eq!(s.puzzle.get((1, 0)), 2);
}

#[test]
fn solve_honours_required_pairs() {
    let mut g = uniform(4, 2, 2);
    g.push_pair((0, 2));
    let s = solve(g).unwrap();
    assert!(s.puzzle.get((0, 2)) >= 2);
    assert!(s.puzzle.pairs_satisfied());
    assert!(s.puzzle.is_solved());
}

#[test]
fn solve_with_commuting_quads() {
    let mut g = Graph::new();
    for _ in 0..4 {
        g.push(node(0, &[(2, 0), (3, 0)]));
    }
    g.commute_quad = Some(true);
    g.meet_quad = true;
    g.connected = true;
    let s = solve(g).unwrap();
    assert!(s.puzzle.commute_quad_satisfied(true));
    assert!(s.puzzle.meet_quad_satisfied());
    assert!(s.puzzle.is_connected());
}

#[test]
fn shape_check_sees_a_short_row() {
    let mut g = uniform(3, 0, 2);
    assert!(g.is_well_shaped());
    g.edges[2].pop();
    assert!(!g.is_well_shaped());
    let mut h = uniform(3, 0, 2);
    h.pairs.push((2, 1));
    assert!(!h.is_well_shaped());
    let mut k = uniform(3, 0, 2);
    k.pairs.push((1, 3));
    assert!(!k.is_well_shaped());
    k.pairs.clear();
    k.cache_node_satisfied.pop();
    assert!(!k.is_well_shaped());
}

#[test]
fn graphviz_document() {
    let mut g = Graph::new();
    g.push(node(0, &[]));
    g.push(node(3, &[]));
    g.push(node(1, &[]));
    g.set((0, 1), 2);
    g.set((1, 2), 5);
    g.set((0, 2), 1);
    let text = g.graphviz("sfdp", &["white", "gray"], &["black", "red"]);
    let expected = "strict graph {\n  layout=sfdp; edge[penwidth=4]\n\
  0[regular=true,style=filled,fillcolor=white];\n\
  1[regular=true,style=filled,fillcolor=gray];\n\
  2[regular=true,style=filled,fillcolor=gray];\n\
  1 -- 0[color=black];\n\
  2 -- 1[color=red];\n\
}\n"
        .replace("\n0[", "\n  0[")
        .replace("\n1[", "\n  1[")
        .replace("\n2[", "\n  2[")
        .replace("\n1 --", "\n  1 --")
        .replace("\n2 --", "\n  2 --");
    assert_eq!(text, expected);
}

#[test]
fn graphviz_of_empty_graph_needs_no_palette() {
    let text = Graph::new().graphviz("dot", &[], &[]);
    assert_eq!(text, "strict graph {\n  layout=dot; edge[penwidth=4]\n}\n");
}

#[test]
fn graphviz_numbers_have_all_digits() {
    let mut g = uniform(12, 0, 2);
    g.set((11, 10), 2);
    let text = g.graphviz("dot", &["a"], &["b"]);
    assert!(text.contains("\n  10[regular=true,style=filled,fillcolor=a];\n"));
    assert!(text.contains("\n  11 -- 10[color=b];\n"));
}

#[test]
fn text_listing() {
    let mut g = Graph::new();
    g.push(node(0, &[]));
    g.push(node(12, &[]));
    g.set((0, 1), 2);
    assert_eq!(g.to_text(), "0 12 \n========================================\n0 2 \n2 0 \n");
    assert_eq!(Graph::new().to_text(), "\n========================================\n");
    let s = SearchState::new(g);
    assert_eq!(s.to_text(), "0 12 \n========================================\n0 2 \n2 0 \n");
    assert_eq!(s.forced_at((0, 1)), None);
    assert_eq!(s.forced_at((0, 9)), None);
}

fn cut_graph() -> Graph {
    let mut g = uniform(4, 0, 2);
    g.set((0, 2), 1);
    g.set((0, 3), 1);
    g.set((1, 2), 1);
    g.set((1, 3), 1);
    g.refresh_cache();
    g
}

#[test]
fn set_keeps_reachability_cells_when_a_concrete_color_is_written() {
    let mut g = cut_graph();
    assert!(g.cache_upper_right_disconnected);
    g.set((0, 1), 2);
    assert!(g.cache_upper_right_disconnected);
    assert!(g.is_upper_right_disconnected());
    g.set((0, 1), 1);
    assert!(!g.cache_upper_right_disconnected);
    assert!(g.is_upper_right_disconnected());
}

#[test]
fn search_state_gives_up_the_cut_cell_when_a_no_edge_turns_concrete() {
    let mut s = SearchState::new(cut_graph());
    s.write((0, 2), 2);
    let g = s.into_graph();
    assert!(!g.cache_upper_right_disconnected);
    assert!(!g.is_upper_right_disconnected());
    assert_eq!(g.get((2, 0)), 2);
}

#[test]
fn satisfied_node_stays_satisfied_when_it_gains_an_edge() {
    let mut g = Graph::new();
    g.push(node(0, &[(2, 0)]));
    g.push(node(0, &[(2, 0)]));
    g.push(node(0, &[]));
    g.set((0, 1), 2);
    g.refresh_cache();
    assert_eq!(g.cache_node_satisfied, vec![true, true, true]);
    g.set((0, 2), 2);
    assert_eq!(g.cache_node_satisfied, vec![true, true, true]);
    assert!(g.node_satisfied(0).is_empty());
    g.clear_cache();
    assert!(g.node_satisfied(0).is_empty());
    assert!(g.all_satisfied());
}

#[test]
fn solve_fails_when_a_wanted_color_is_scarce() {
    let mut g = Graph::new();
    g.push(node(0, &[(2, 5), (2, 5)]));
    g.push(node(5, &[(2, 0)]));
    g.push(node(0, &[]));
    g.push(node(0, &[]));
    assert!(solve(g).is_none());
}

#[test]
fn solve_simple_hands_over_forced_moves_in_row_major_order() {
    let mut g = Graph::new();
    g.push(node(0, &[(2, 0)]));
    g.push(node(0, &[(2, 0)]));
    g.push(node(0, &[]));
    g.push(node(0, &[]));
    let mut s = SearchState::new(g);
    let mut calls: Vec<((usize, usize), Color)> = vec![];
    s.solve_simple(|state, pos, val| {
        calls.push((pos, val));
        state.write(pos, val);
    });
    assert_eq!(calls, vec![((0, 2), 1), ((0, 3), 1), ((1, 2), 1), ((1, 3), 1), ((2, 3), 1)]);
    assert_eq!(s.read((0, 1)), 0);
    assert_eq!(s.read((0, 2)), 1);
    assert_eq!(s.read((2, 3)), 1);
}

#[test]
fn solve_simple_sees_what_the_callback_wrote() {
    let mut g = Graph::new();
    g.push(node(0, &[(2, 0)]));
    g.push(node(0, &[(2, 0)]));
    g.push(node(0, &[(2, 0)]));
    g.set((0, 1), 2);
    let mut s = SearchState::new(g);
    let mut calls: Vec<((usize, usize), Color)> = vec![];
    s.solve_simple(|state, pos, val| {
        calls.push((pos, val));
        state.write(pos, val);
    });
    assert_eq!(calls, vec![((0, 2), 1), ((1, 2), 1)]);
}

#[test]
fn solve_simple_leaves_the_state_alone_when_nothing_is_forced() {
    let mut s = SearchState::new(uniform(3, 2, 2));
    let before = s.to_text();
    let mut calls = 0;
    s.solve_simple(|state, pos, val| {
        calls += 1;
        state.write(pos, val);
    });
    assert_eq!(calls, 0);
    assert_eq!(s.to_text(), before);
}

#[test]
fn puzzle_remove_resets_what_the_other_has() {
    let mut g = uniform(3, 0, 2);
    g.set((0, 1), 2);
    g.set((1, 2), 3);
    g.set((0, 2), 1);
    let mut other = uniform(3, 0, 2);
    other.set((0, 1), 2);
    other.set((0, 2), 4);
    let mut s = SearchState::new(g);
    Puzzle::remove(&mut s, &SearchState::new(other));
    assert_eq!(Puzzle::get(&s, (0, 1)), 0);
    assert_eq!(Puzzle::get(&s, (1, 2)), 3);
    assert_eq!(Puzzle::get(&s, (2, 0)), 0);
    Puzzle::remove(&mut s, &SearchState::new(uniform(2, 0, 2)));
    assert_eq!(Puzzle::get(&s, (1, 2)), 3);
    let mut wide = uniform(4, 0, 2);
    wide.set((1, 2), 2);
    Puzzle::remove(&mut s, &SearchState::new(wide));
    assert_eq!(Puzzle::get(&s, (1, 2)), 3);
}
