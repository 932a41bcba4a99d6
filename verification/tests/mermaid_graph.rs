use spec_viewer::markdown::mermaid::graph::{compute_layers, dedupe_abbreviations, layout};
use spec_viewer::markdown::mermaid::parse::{self, Diagram, Dir};
use spec_viewer::markdown::mermaid::Fallback;
use spec_viewer::width::line_width;


fn joined(lines: &[String]) -> String {
    lines.join("\n")
}

#[test]
fn test_boundary_map_lr_width80_and_120() {
    let src = "graph LR\n    FS[kiro directory] --> Loader\n    Loader --> SpecModel\n    Loader --> Render\n    Render --> Rendered\n    SpecModel --> TreePanel\n    Rendered --> DocPanel\n    Rendered --> Search\n    Rendered --> Toc\n    Watcher --> Reducer\n    Keys --> Reducer\n    Reducer --> Loader\n    Reducer --> AppState\n    AppState --> TreePanel\n    AppState --> DocPanel\n    AppState --> StatusBar";
    let diagram = parse::parse(src).unwrap();
    for width in [80u16, 120u16] {
        let lines = layout(&diagram, width, "flowchart").unwrap();
        let text = joined(&lines);
        assert!(!lines.is_empty(), "expected non-empty render at width {width}");
        assert!(text.contains('►'), "expected LR arrow head at width {width}");
        for l in &lines {
            assert!(line_width(l) <= width as usize, "line too wide at width {width}: {l}");
        }
    }

    let lines150 = layout(&diagram, 150, "flowchart").unwrap();
    let text150 = joined(&lines150);
    for id in [
        "kiro directory", "Loader", "SpecModel", "Render", "Rendered", "TreePanel", "DocPanel", "Search", "Toc",
        "Watcher", "Reducer", "AppState", "StatusBar",
    ] {
        assert!(text150.contains(id), "missing {id} at width 150 (should fit unabbreviated)");
    }

    let loader_row = lines150
        .iter()
        .position(|l| l.contains("│Loader│"))
        .unwrap_or_else(|| panic!("expected Loader's own box, got:\n{text150}"));
    let render_row = lines150
        .iter()
        .position(|l| l.contains("│Render│"))
        .unwrap_or_else(|| panic!("expected Render's own box, got:\n{text150}"));
    assert_ne!(loader_row, render_row, "this regression check requires a genuine bend (Loader and Render on different rows)");

    let loader_end = char_pos(&lines150[loader_row], "│Loader│").unwrap() + "│Loader│".chars().count();
    let bend_col = find_junction_col(&lines150[loader_row], loader_end).unwrap_or_else(|| {
        panic!("expected a bend junction on Loader's own row after its box, got: {}", lines150[loader_row])
    });
    assert!(
        unbroken_vertical(&lines150, loader_row, render_row, bend_col),
        "expected an unbroken vertical connector from Loader's row (line {loader_row}) down to Render's row \
         (line {render_row}) at column {bend_col}, got:\n{text150}"
    );
    assert!(
        arrow_reachable_from_junction(&lines150[render_row], bend_col),
        "expected the vertical connector's landing junction (column {bend_col}) to lead directly \
         (skipping only line-drawing dashes) to an arrowhead into Render, got: {}",
        lines150[render_row]
    );

    let treepanel_label_row = lines150
        .iter()
        .position(|l| l.contains("│TreePanel│"))
        .unwrap_or_else(|| panic!("expected TreePanel's own box, got:\n{text150}"));
    let treepanel_border_row = treepanel_label_row + 1;
    assert!(
        lines150[treepanel_label_row].contains("►│TreePanel│"),
        "expected an arrowhead landing directly on TreePanel's own labeled row, got: {}",
        lines150[treepanel_label_row]
    );
    assert!(
        lines150.get(treepanel_border_row).is_some_and(|l| l.contains('►') && l.contains('└')),
        "expected the second converging edge's arrowhead bumped onto TreePanel's neighboring border row \
         (distinct from its labeled row), got: {:?}",
        lines150.get(treepanel_border_row)
    );
}

fn char_pos(line: &str, needle: &str) -> Option<usize> {
    let chars: Vec<char> = line.chars().collect();
    let needle: Vec<char> = needle.chars().collect();
    if needle.is_empty() || needle.len() > chars.len() {
        return None;
    }
    (0..=chars.len() - needle.len()).find(|&i| chars[i..i + needle.len()] == needle[..])
}

fn find_junction_col(line: &str, from: usize) -> Option<usize> {
    line.chars().enumerate().skip(from).find(|&(_, c)| c == '┼' || c == '┬').map(|(i, _)| i)
}

fn unbroken_vertical(lines: &[String], row_a: usize, row_b: usize, col: usize) -> bool {
    let (a, b) = if row_a <= row_b { (row_a, row_b) } else { (row_b, row_a) };
    if b <= a + 1 {
        return true; // adjacent rows: nothing between them to check
    }
    ((a + 1)..b).all(|r| matches!(lines[r].chars().nth(col), Some('│' | '┼' | '├' | '┤')))
}

fn arrow_reachable_from_junction(line: &str, col: usize) -> bool {
    let chars: Vec<char> = line.chars().collect();
    let mut i = col + 1; // skip the junction character itself
    while i < chars.len() && chars[i] == '─' {
        i += 1;
    }
    chars.get(i) == Some(&'►')
}

#[test]
fn test_boundary_map_render_rendered_distinguishable_at_width_80() {
    let src = "graph LR\n    FS[kiro directory] --> Loader\n    Loader --> SpecModel\n    Loader --> Render\n    Render --> Rendered\n    SpecModel --> TreePanel\n    Rendered --> DocPanel\n    Rendered --> Search\n    Rendered --> Toc\n    Watcher --> Reducer\n    Keys --> Reducer\n    Reducer --> Loader\n    Reducer --> AppState\n    AppState --> TreePanel\n    AppState --> DocPanel\n    AppState --> StatusBar";
    let diagram = parse::parse(src).unwrap();
    let lines = layout(&diagram, 80, "flowchart").unwrap();
    let text = joined(&lines);
    for l in &lines {
        assert!(line_width(l) <= 80, "line too wide at width 80: {l}");
    }

    let render_box_line = lines
        .iter()
        .find(|l| l.contains("│Render│"))
        .unwrap_or_else(|| panic!("expected Render's own box to render distinctly, got:\n{text}"));
    let rendered_box_line = lines
        .iter()
        .find(|l| l.contains("Rende"))
        .unwrap_or_else(|| panic!("expected Rendered's own box to render (possibly abbreviated), got:\n{text}"));

    assert_ne!(
        render_box_line, rendered_box_line,
        "Render and Rendered must not render onto an indistinguishable identical line: {render_box_line}"
    );
    assert!(
        !text.contains("Ren…"),
        "abbreviating both Render and Rendered down to the identical `Ren…` reintroduces the ambiguity bug, got:\n{text}"
    );

    if let Diagram::Graph { nodes, .. } = &diagram {
        let ids: Vec<String> = nodes.iter().map(|n| n.id.clone()).collect();
        for budget in 3..=8usize {
            let map = dedupe_abbreviations(&ids, budget);
            let get = |k: &str| map.iter().find(|(id, _)| id == k).map(|(_, a)| a.clone());
            assert_ne!(
                get("Render"),
                get("Rendered"),
                "Render and Rendered must be pairwise distinguishable at budget {budget}"
            );
        }
    }
}

#[test]
fn test_lr_edge_label_rendered() {
    let src = "graph LR\n  A[Start] -->|go| B[End]";
    let diagram = parse::parse(src).unwrap();
    let lines = layout(&diagram, 80, "flowchart").unwrap();
    let text = joined(&lines);
    assert!(text.contains("go"));
    assert!(text.contains('►'));
}

#[test]
fn test_labelless_edge_shows_no_source_name_on_connector() {
    let src = "graph LR\n A --> B";
    let diagram = parse::parse(src).unwrap();
    let lines = layout(&diagram, 80, "flowchart").unwrap();
    let text = joined(&lines);
    assert!(text.contains('►'), "expected an arrowhead, got:\n{text}");
    for l in &lines {
        let stripped = l.replace("│A│", "");
        assert!(!stripped.contains('A'), "label-less connector must not show source id 'A', got line: {l:?}\nfull:\n{text}");
    }
}

#[test]
fn test_labeled_edge_shows_only_label_no_source_name() {
    let src = "graph LR\n A -->|checks| B";
    let diagram = parse::parse(src).unwrap();
    let lines = layout(&diagram, 80, "flowchart").unwrap();
    let text = joined(&lines);
    assert!(text.contains("checks"), "expected the label 'checks', got:\n{text}");
    assert!(text.contains('►'), "expected an arrowhead, got:\n{text}");
    for l in &lines {
        let stripped = l.replace("│A│", "");
        assert!(!stripped.contains('A'), "labeled connector must not show source id 'A' next to its label, got line: {l:?}\nfull:\n{text}");
    }
}

#[test]
fn test_er_fixture_entities_attrs_cardinality() {
    let src = "erDiagram\n  CUSTOMER {\n    string name\n    string id\n  }\n  ORDER {\n    string sku\n  }\n  CUSTOMER ||--o{ ORDER : places";
    let diagram = parse::parse(src).unwrap();
    let lines = layout(&diagram, 80, "er").unwrap();
    let text = joined(&lines);
    assert!(text.contains("CUSTOMER"));
    assert!(text.contains("ORDER"));
    assert!(text.contains("string name"));
    assert!(text.contains("string id"));
    assert!(text.contains("string sku"));
    assert!(text.contains("||"));
    assert!(text.contains("o{"));
    assert!(text.contains("places"));
}

#[test]
fn test_class_fixture_three_compartments_and_inherit() {
    let src = "classDiagram\n  class Animal {\n    +String name\n    +eat()\n  }\n  class Dog {\n    +String breed\n    +bark()\n  }\n  Animal <|-- Dog";
    let diagram = parse::parse(src).unwrap();
    let lines = layout(&diagram, 80, "class").unwrap();
    let text = joined(&lines);
    assert!(text.contains("Animal"));
    assert!(text.contains("Dog"));
    assert!(text.contains("+String name"));
    assert!(text.contains("+eat()"));
    let divider_count = lines.iter().filter(|l| l.contains('├')).count();
    assert!(divider_count >= 2, "expected at least 2 compartment dividers total, got {divider_count}");
    assert!(text.contains('▷'), "expected inheritance glyph ▷, got: {text}");
    let animal_line = lines
        .iter()
        .position(|l| l.contains("Animal"))
        .unwrap_or_else(|| panic!("expected Animal's box, got:\n{text}"));
    let animal_box_end = (animal_line..lines.len())
        .find(|&i| lines[i].trim_start().starts_with('└'))
        .unwrap_or_else(|| panic!("expected the end (closing border) of Animal's box, got:\n{text}"));
    let arrow_row = lines
        .iter()
        .position(|l| l.contains('▷'))
        .unwrap_or_else(|| panic!("expected a row bearing the inheritance glyph, got:\n{text}"));
    assert!(
        arrow_row > animal_box_end,
        "expected the inheritance glyph below Animal's box, got:\n{text}"
    );
    for r in (animal_box_end + 1)..arrow_row {
        assert!(
            lines[r].contains('│'),
            "expected an unbroken vertical connector from Animal's box down to the inheritance glyph, missing at row {r}:\n{text}"
        );
    }
    for r in (animal_box_end + 1)..=arrow_row {
        assert!(
            !lines[r].contains("Animal"),
            "no stray source-id text expected on the label-less connector, got row {r}: {}",
            lines[r]
        );
    }
    assert!(
        lines.iter().any(|l| l.contains('│')),
        "expected a real vertical connecting line between Animal and Dog, got:\n{text}"
    );
}

#[test]
fn test_compose_and_aggregate_glyphs() {
    let src = "classDiagram\n  Car *-- Engine\n  Car o-- Wheel";
    let diagram = parse::parse(src).unwrap();
    let lines = layout(&diagram, 80, "class").unwrap();
    let text = joined(&lines);
    assert!(text.contains('◆'), "expected compose glyph, got: {text}");
    assert!(text.contains('◇'), "expected aggregate glyph, got: {text}");
    assert!(!text.contains("Car◆") && !text.contains("Car ◆"), "compose glyph must not be glued to source id 'Car', got: {text}");
    assert!(!text.contains("Car◇") && !text.contains("Car ◇"), "aggregate glyph must not be glued to source id 'Car', got: {text}");
    assert!(
        lines.iter().any(|l| l.contains('┼') || l.contains('┬') || l.contains('├') || l.contains('┤')),
        "expected Car's two outgoing edges to merge into a real junction, got:\n{text}"
    );
}

#[test]
fn test_state_fixture_start_end_and_label() {
    let src = "stateDiagram-v2\n  [*] --> A\n  A --> B : label\n  B --> [*]";
    let diagram = parse::parse(src).unwrap();
    let lines = layout(&diagram, 80, "state").unwrap();
    let text = joined(&lines);
    assert!(text.contains('●'), "expected start marker");
    assert!(text.contains('◉'), "expected end marker");
    assert!(text.contains("label"));
    assert!(text.contains('A'));
    assert!(text.contains('B'));
}

#[test]
fn test_state_star_as_both_source_and_target_no_crash() {
    let src = "stateDiagram-v2\n  [*] --> A\n  A --> [*]\n  [*] --> B";
    let diagram = parse::parse(src).unwrap();
    let lines = layout(&diagram, 80, "state");
    assert!(lines.is_ok(), "must not crash on duplicate [*] ids");
    let text = joined(&lines.unwrap());
    assert!(text.contains('●'));
    assert!(text.contains('◉'));
}

#[test]
fn test_generic_gantt_fixture_renders_as_box_graph() {
    let src = "gantt\n    title Adoption Timeline\n    section Planning\n    Kickoff :done, 2024-01-01, 3d\n    Research :active, 2024-01-04, 5d\n    Kickoff --> Research";
    let diagram = parse::parse(src).unwrap();
    let lines = layout(&diagram, 80, "generic").unwrap();
    let text = joined(&lines);
    assert!(text.contains("Kickoff"));
    assert!(text.contains("Research"));
    assert!(text.contains("done, 2024-01-01, 3d"));
    assert!(text.contains('▼') || text.contains('►'));
}

#[test]
fn test_width_40_overflow_falls_back() {
    let src = "graph TB\n  A --> B1\n  A --> B2\n  A --> B3\n  A --> B4\n  A --> B5\n  A --> B6\n  A --> B7\n  A --> B8\n  A --> B9\n  A --> B10";
    let diagram = parse::parse(src).unwrap();
    let res = layout(&diagram, 40, "flowchart");
    assert!(matches!(res, Err(Fallback::Overflow { .. })), "expected overflow fallback, got {:?}", res);
}

#[test]
fn test_width_40_abbreviation_succeeds() {
    let src = "graph TB\n  A[This descriptive node label is definitely longer than forty display columns wide] --> B[Short]";
    let diagram = parse::parse(src).unwrap();
    let lines = layout(&diagram, 40, "flowchart").unwrap();
    let text = joined(&lines);
    assert!(text.contains('…'), "expected abbreviation ellipsis, got: {text}");
    for l in &lines {
        assert!(line_width(l) <= 40, "line exceeds width 40: {l}");
    }
}

#[test]
fn test_subgraph_dashed_border_and_title() {
    let src = "graph LR\n  subgraph Group1\n    A\n    B\n  end\n  A --> B";
    let diagram = parse::parse(src).unwrap();
    let lines = layout(&diagram, 80, "flowchart").unwrap();
    let text = joined(&lines);
    assert!(text.contains("Group1"));
    assert!(text.contains('┄'));
    assert!(text.contains('┆'));
}

#[test]
fn test_korean_label_width_no_panic_and_correct_width() {
    let src = "graph TB\n  A[한글 레이블 노드] --> B[다른 노드]";
    let diagram = parse::parse(src).unwrap();
    let lines = layout(&diagram, 80, "flowchart").unwrap();
    let text = joined(&lines);
    assert!(text.contains("한글 레이블 노드"));
    for l in &lines {
        assert!(line_width(l) <= 80);
    }
}

#[test]
fn test_empty_nodes_defensive_no_panic() {
    let diagram = Diagram::Graph { dir: Dir::TB, nodes: Vec::new(), edges: Vec::new(), groups: Vec::new() };
    let res = layout(&diagram, 80, "flowchart");
    assert!(matches!(res, Err(Fallback::Empty { .. })));
}

#[test]
fn test_line_style_edge_no_arrowhead() {
    let src = "graph TB\n  A --- B";
    let diagram = parse::parse(src).unwrap();
    let lines = layout(&diagram, 80, "flowchart").unwrap();
    for l in &lines {
        assert!(!l.contains('▼'), "Line style must not render an arrowhead: {l}");
    }
}

#[test]
fn test_lr_crossing_edges_traceable_to_correct_source() {
    let src = "graph LR\n  A\n  B\n  X\n  Y\n  A -->|toY| Y\n  B -->|toX| X";
    let diagram = parse::parse(src).unwrap();
    let lines = layout(&diagram, 120, "flowchart").unwrap();
    let text = joined(&lines);

    let y_row = lines
        .iter()
        .position(|l| l.contains("│Y│"))
        .unwrap_or_else(|| panic!("expected a line rendering Y's box, got:\n{text}"));
    let x_row = lines
        .iter()
        .position(|l| l.contains("│X│"))
        .unwrap_or_else(|| panic!("expected a line rendering X's box, got:\n{text}"));
    assert_ne!(y_row, x_row, "X and Y must render on distinct rows for this crossing check to be meaningful");

    assert!(lines[y_row].contains("toY"), "A-->Y's label must land on Y's own row, got: {}", lines[y_row]);
    assert!(!lines[y_row].contains("toX"), "B-->X's label must not land on Y's row, got: {}", lines[y_row]);
    assert!(lines[x_row].contains("toX"), "B-->X's label must land on X's own row, got: {}", lines[x_row]);
    assert!(!lines[x_row].contains("toY"), "A-->Y's label must not land on X's row, got: {}", lines[x_row]);

    assert!(
        lines.iter().any(|l| "┼├┤┬┴".chars().any(|j| l.contains(j))),
        "expected the crossing edges to merge into a real junction, got:\n{text}"
    );
}

#[test]
fn test_self_loop_edge_dropped_without_fabricated_connector() {
    let src = "graph LR\n  A --> A\n  A --> B";
    let diagram = parse::parse(src).unwrap();
    let lines = layout(&diagram, 80, "flowchart");
    assert!(lines.is_ok(), "self-loop edge must not panic or overflow the outer bound: {lines:?}");
    let lines = lines.unwrap();
    let text = joined(&lines);
    assert!(text.contains('A'));
    assert!(text.contains('B'));
    let a_row = lines.iter().position(|l| l.contains("│A│")).unwrap_or_else(|| panic!("expected A's box, got:\n{text}"));
    let b_row = lines.iter().position(|l| l.contains("│B│")).unwrap_or_else(|| panic!("expected B's box, got:\n{text}"));
    assert_eq!(
        a_row, b_row,
        "the real A-->B edge must render as a single-row direct connector, got:\n{text}"
    );
    assert!(lines[a_row].contains('►'), "expected an arrowhead on A/B's shared row, got: {}", lines[a_row]);
    assert_eq!(text.matches('►').count(), 1, "self-loop must not fabricate an extra connector, got:\n{text}");
}

#[test]
fn test_self_loop_does_not_corrupt_other_node_layers() {
    let src = "graph TB\n  A --> A\n  A --> B\n  B --> C";
    let diagram = parse::parse(src).unwrap();
    let lines = layout(&diagram, 80, "flowchart").unwrap();
    let text = joined(&lines);
    assert!(text.contains('A') && text.contains('B') && text.contains('C'));
    let a_row = lines.iter().position(|l| l.contains('A')).unwrap();
    let b_row = lines.iter().position(|l| l.contains('B')).unwrap();
    let c_row = lines.iter().position(|l| l.contains('C')).unwrap();
    assert!(a_row < b_row && b_row < c_row, "expected A above B above C, got:\n{text}");
}

#[test]
fn test_self_loop_on_mid_chain_node_does_not_inflate_layers() {
    let src = "graph LR\n  A --> B\n  B --> B\n  B --> C\n  C --> D";
    let diagram = parse::parse(src).unwrap();
    let (nodes, edges) = match &diagram {
        Diagram::Graph { nodes, edges, .. } => (nodes, edges),
        _ => panic!("expected a Graph diagram"),
    };
    let resolved: Vec<(usize, usize, usize)> = edges
        .iter()
        .enumerate()
        .filter_map(|(i, e)| {
            let f = nodes.iter().position(|nd| nd.id == e.from)?;
            let t = nodes.iter().position(|nd| nd.id == e.to)?;
            Some((f, t, i))
        })
        .collect();
    let layer = compute_layers(nodes.len(), &resolved).unwrap();
    let idx_of = |id: &str| nodes.iter().position(|nd| nd.id == id).unwrap();

    assert_eq!(layer[idx_of("A")], 0, "A must be at layer 0");
    assert_eq!(layer[idx_of("B")], 1, "B's self-loop must not inflate B's own layer");
    assert_eq!(layer[idx_of("C")], 2, "C must sit exactly one layer past B, not inflated by B's self-loop");
    assert_eq!(layer[idx_of("D")], 3, "D must sit exactly one layer past C, not inflated by B's self-loop");

    let lines = layout(&diagram, 80, "flowchart").unwrap();
    for l in &lines {
        assert!(line_width(l) <= 80, "line too wide at width 80: {l}");
    }
}
