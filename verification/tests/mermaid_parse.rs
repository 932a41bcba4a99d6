use spec_viewer::markdown::mermaid::Fallback;
use spec_viewer::markdown::mermaid::parse::{self, Diagram, Dir, EdgeStyle, Shape};


#[test]
fn test_dispatch_flow() {
    let res = parse::parse("graph LR\n  A --> B").unwrap();
    assert!(matches!(res, Diagram::Graph { .. }));
}

#[test]
fn test_dispatch_er() {
    let res = parse::parse("erDiagram\n  CUSTOMER ||--o{ ORDER : places").unwrap();
    assert!(matches!(res, Diagram::Graph { .. }));
}

#[test]
fn test_dispatch_class() {
    let res = parse::parse("classDiagram\n  class Foo { +int x }").unwrap();
    assert!(matches!(res, Diagram::Graph { .. }));
}

#[test]
fn test_dispatch_state() {
    let res = parse::parse("stateDiagram-v2\n  [*] --> Idle").unwrap();
    assert!(matches!(res, Diagram::Graph { .. }));
}

#[test]
fn test_dispatch_sequence() {
    let res = parse::parse("sequenceDiagram\n  Alice->>Bob: Hi").unwrap();
    assert!(matches!(res, Diagram::Sequence { .. }));
}

#[test]
fn test_dispatch_generic_for_unsupported_kind() {
    let res = parse::parse("gantt\n  Task1 done").unwrap();
    assert!(matches!(res, Diagram::Graph { .. }));
}


#[test]
fn test_boundary_map() {
    let src = "graph LR\n  ValueChain --> BizProcess\n  BizProcess --> Requirements\n  Requirements --> Design\n  Design --> Tasks\n  Tasks --> Impl\n  Impl --> Validate\n  Validate --> Verify\n  Verify --> Done\n  BizProcess --> Design\n  Requirements --> Design\n  Design --> Tasks\n  Tasks --> Impl\n  Impl --> Validate\n  Validate --> Verify";
    let res = parse::flow::parse(src).unwrap();
    if let Diagram::Graph { dir, nodes, edges, .. } = res {
        assert_eq!(dir, Dir::LR);
        assert!(nodes.len() >= 9);
        assert!(edges.len() >= 14);
    } else {
        panic!("Not a graph");
    }
}

#[test]
fn test_edge_label() {
    let src = "graph LR\n  A -->|go| B";
    let res = parse::flow::parse(src).unwrap();
    if let Diagram::Graph { edges, .. } = res {
        assert_eq!(edges[0].label, Some("go".to_string()));
    } else {
        panic!("Not a graph");
    }
}

#[test]
fn test_edge_label_dash_form() {
    let src = "graph LR\n  A -- go --> B";
    let res = parse::flow::parse(src).unwrap();
    if let Diagram::Graph { edges, .. } = res {
        assert_eq!(edges[0].label, Some("go".to_string()));
        assert_eq!(edges[0].from, "A");
        assert_eq!(edges[0].to, "B");
    } else {
        panic!("Not a graph");
    }
}

#[test]
fn test_subgraph_members() {
    let src = "graph LR\n  subgraph G1\n    A\n    B\n  end";
    let res = parse::flow::parse(src).unwrap();
    if let Diagram::Graph { groups, .. } = res {
        assert_eq!(groups[0].title, "G1");
        assert!(groups[0].members.contains(&"A".to_string()));
        assert!(groups[0].members.contains(&"B".to_string()));
    } else {
        panic!("Not a graph");
    }
}

#[test]
fn test_node_label_bracket_syntax() {
    let src = "graph TB\n  A[Start Node] --> B(Round)\n  C{Diamond}\n  D((Circle))";
    let res = parse::flow::parse(src).unwrap();
    if let Diagram::Graph { dir, nodes, .. } = res {
        assert_eq!(dir, Dir::TB);
        let a = nodes.iter().find(|n| n.id == "A").unwrap();
        assert_eq!(a.shape, Shape::Box("Start Node".to_string()));
        let b = nodes.iter().find(|n| n.id == "B").unwrap();
        assert_eq!(b.shape, Shape::Box("Round".to_string()));
        let c = nodes.iter().find(|n| n.id == "C").unwrap();
        assert_eq!(c.shape, Shape::Box("Diamond".to_string()));
        let d = nodes.iter().find(|n| n.id == "D").unwrap();
        assert_eq!(d.shape, Shape::Box("Circle".to_string()));
    } else {
        panic!("Not a graph");
    }
}

#[test]
fn test_bare_node_no_shape_defaults_to_id() {
    let src = "graph TB\n  A --> B";
    let res = parse::flow::parse(src).unwrap();
    if let Diagram::Graph { nodes, .. } = res {
        let a = nodes.iter().find(|n| n.id == "A").unwrap();
        assert_eq!(a.shape, Shape::Box("A".to_string()));
    } else {
        panic!("Not a graph");
    }
}

#[test]
fn test_line_style_edge() {
    let src = "graph TB\n  A --- B";
    let res = parse::flow::parse(src).unwrap();
    if let Diagram::Graph { edges, .. } = res {
        assert_eq!(edges[0].style, EdgeStyle::Line);
    } else {
        panic!("Not a graph");
    }
}

#[test]
fn flow_test_zero_nodes_is_empty_fallback() {
    let src = "graph TB\n  %% just a comment";
    let res = parse::flow::parse(src);
    assert!(matches!(res, Err(Fallback::Empty { .. })));
}


#[test]
fn test_entity_attributes_inline() {
    let src = "erDiagram\n  CUSTOMER { string name string id }";
    let res = parse::er::parse(src).unwrap();
    if let Diagram::Graph { nodes, .. } = res {
        let c = nodes.iter().find(|n| n.id == "CUSTOMER").unwrap();
        match &c.shape {
            Shape::Entity { name, fields } => {
                assert_eq!(name, "CUSTOMER");
                assert_eq!(fields, &vec!["string name".to_string(), "string id".to_string()]);
            }
            _ => panic!("not an entity"),
        }
    } else {
        panic!("not a graph");
    }
}

#[test]
fn test_relationship_cardinality_and_label() {
    let src = "erDiagram\n  CUSTOMER ||--o{ ORDER : places";
    let res = parse::er::parse(src).unwrap();
    if let Diagram::Graph { edges, nodes, .. } = res {
        assert_eq!(nodes.len(), 2);
        assert_eq!(edges[0].from, "CUSTOMER");
        assert_eq!(edges[0].to, "ORDER");
        assert_eq!(edges[0].label, Some("places".to_string()));
        assert_eq!(edges[0].style, EdgeStyle::Cardinality("||".to_string(), "o{".to_string()));
    } else {
        panic!("not a graph");
    }
}

#[test]
fn test_multiline_entity_block() {
    let src = "erDiagram\n  CUSTOMER {\n    string name\n    string id\n  }";
    let res = parse::er::parse(src).unwrap();
    if let Diagram::Graph { nodes, .. } = res {
        let c = nodes.iter().find(|n| n.id == "CUSTOMER").unwrap();
        match &c.shape {
            Shape::Entity { fields, .. } => {
                assert_eq!(fields, &vec!["string name".to_string(), "string id".to_string()]);
            }
            _ => panic!("not an entity"),
        }
    } else {
        panic!("not a graph");
    }
}

#[test]
fn er_test_zero_nodes_is_empty_fallback() {
    let src = "erDiagram\n  %% nothing here";
    let res = parse::er::parse(src);
    assert!(matches!(res, Err(Fallback::Empty { .. })));
}


#[test]
fn test_class_compartments_single_line() {
    let src = "classDiagram\n  class Foo { +int x -bar() }";
    let res = parse::class::parse(src).unwrap();
    if let Diagram::Graph { nodes, .. } = res {
        let foo = nodes.iter().find(|n| n.id == "Foo").unwrap();
        match &foo.shape {
            Shape::Class { attrs, methods, .. } => {
                assert_eq!(attrs, &vec!["+int x".to_string()]);
                assert_eq!(methods, &vec!["-bar()".to_string()]);
            }
            _ => panic!("not a class"),
        }
    } else {
        panic!("not a graph");
    }
}

#[test]
fn test_trailing_inline_comment_stripped_from_member() {
    // 16.2: 줄 앞이 아니라 멤버 뒤에 붙는 `%%` 인라인 주석(실측:
    // gitea-github-schema.md `+Int type  %% 0: User, 1: Organization`) —
    // 줄 전체가 `%%` 로 시작하는 경우만 걸러내던 기존 필터로는 못 잡고
    // 그대로 멤버 텍스트에 섞여 폭을 불필요하게 늘렸다.
    let src = "classDiagram\n  class Foo {\n    +Int type  %% 0: User, 1: Organization\n  }";
    let res = parse::class::parse(src).unwrap();
    if let Diagram::Graph { nodes, .. } = res {
        let foo = nodes.iter().find(|n| n.id == "Foo").unwrap();
        match &foo.shape {
            Shape::Class { attrs, .. } => {
                assert_eq!(attrs, &vec!["+Int type".to_string()], "trailing %% comment must be stripped");
            }
            _ => panic!("not a class"),
        }
    } else {
        panic!("not a graph");
    }
}

#[test]
fn test_class_compartments_multiline() {
    let src = "classDiagram\n  class Foo {\n    +int x\n    +bar()\n  }";
    let res = parse::class::parse(src).unwrap();
    if let Diagram::Graph { nodes, .. } = res {
        let foo = nodes.iter().find(|n| n.id == "Foo").unwrap();
        match &foo.shape {
            Shape::Class { attrs, methods, .. } => {
                assert_eq!(attrs, &vec!["+int x".to_string()]);
                assert_eq!(methods, &vec!["+bar()".to_string()]);
            }
            _ => panic!("not a class"),
        }
    } else {
        panic!("not a graph");
    }
}

#[test]
fn test_relationship_kinds() {
    let src = "classDiagram\n  Animal <|-- Dog\n  Car *-- Engine\n  Car o-- Wheel\n  A --> B : uses";
    let res = parse::class::parse(src).unwrap();
    if let Diagram::Graph { edges, .. } = res {
        assert_eq!(edges[0].style, EdgeStyle::Inherit);
        assert_eq!(edges[1].style, EdgeStyle::Compose);
        assert_eq!(edges[2].style, EdgeStyle::Aggregate);
        assert_eq!(edges[3].style, EdgeStyle::Arrow);
        assert_eq!(edges[3].label, Some("uses".to_string()));
    } else {
        panic!("not a graph");
    }
}

#[test]
fn test_quoted_multiplicity_does_not_leak_into_node_id() {
    // 16.1 재현 과정에서 실측: gitea-github-schema.md 의
    // `Organization "1" *-- "N" Team : owns` 같은 관계 다중성 표기가
    // 그대로 좌/우 식별자에 섞여 `Organization "1"`/`"N" Team` 이라는
    // 가짜 클래스 노드를 만들었다 — 15개여야 할 클래스가 42개로 부풀어
    // (실측) 어떤 폭에서도 못 들어가는 원인이었다.
    let src = "classDiagram\n  Organization \"1\" *-- \"N\" Team : owns";
    let res = parse::class::parse(src).unwrap();
    if let Diagram::Graph { nodes, edges, .. } = res {
        let ids: Vec<&str> = nodes.iter().map(|n| n.id.as_str()).collect();
        assert_eq!(ids, vec!["Organization", "Team"], "quoted multiplicities must not leak into node ids: {ids:?}");
        assert_eq!(edges[0].from, "Organization");
        assert_eq!(edges[0].to, "Team");
        assert_eq!(edges[0].label, Some("owns".to_string()));
    } else {
        panic!("not a graph");
    }
}

#[test]
fn class_test_zero_nodes_is_empty_fallback() {
    let src = "classDiagram\n  %% nothing";
    let res = parse::class::parse(src);
    assert!(matches!(res, Err(Fallback::Empty { .. })));
}


#[test]
fn test_gantt_fixture_line_per_box() {
    let src = "gantt\n    title Adoption Timeline\n    section Planning\n    Kickoff :done, 2024-01-01, 3d\n    Research :active, 2024-01-04, 5d\n    Kickoff --> Research";
    let res = parse::generic::parse(src).unwrap();
    if let Diagram::Graph { dir, nodes, edges, .. } = res {
        assert_eq!(dir, Dir::TB);
        let kickoff = nodes.iter().find(|n| n.id == "Kickoff").unwrap();
        match &kickoff.shape {
            Shape::Class { attrs, methods, .. } => {
                assert_eq!(attrs, &vec![":done, 2024-01-01, 3d".to_string()]);
                assert!(methods.is_empty());
            }
            _ => panic!("expected class shape"),
        }
        assert!(edges.iter().any(|e| e.from == "Kickoff" && e.to == "Research" && e.style == EdgeStyle::Arrow));
    } else {
        panic!("not a graph");
    }
}

#[test]
fn test_bare_colon_relation_between_titles() {
    let src = "pie\n  A\n  B\n  A : B";
    let res = parse::generic::parse(src).unwrap();
    if let Diagram::Graph { edges, .. } = res {
        assert!(edges.iter().any(|e| e.from == "A" && e.to == "B" && e.style == EdgeStyle::Line));
    } else {
        panic!("not a graph");
    }
}

#[test]
fn test_zero_boxes_is_empty_fallback() {
    let src = "gantt\n  %% just a comment";
    let res = parse::generic::parse(src);
    assert!(matches!(res, Err(Fallback::Empty { kind }) if kind == "generic"));
}


#[test]
fn test_participants_and_alias() {
    let src = "sequenceDiagram\n  participant A\n  participant B as Bob";
    let res = parse::seq::parse(src).unwrap();
    if let Diagram::Sequence { actors, .. } = res {
        assert_eq!(actors, vec!["A".to_string(), "Bob".to_string()]);
    } else {
        panic!("not a sequence");
    }
}

#[test]
fn test_implicit_participant_from_message() {
    let src = "sequenceDiagram\n  Alice->>Bob: Hello";
    let res = parse::seq::parse(src).unwrap();
    if let Diagram::Sequence { actors, messages } = res {
        assert_eq!(actors, vec!["Alice".to_string(), "Bob".to_string()]);
        assert_eq!(messages[0].from, "Alice");
        assert_eq!(messages[0].to, "Bob");
        assert_eq!(messages[0].label, "Hello");
        assert!(!messages[0].self_msg);
    } else {
        panic!("not a sequence");
    }
}

#[test]
fn test_all_message_arrow_forms() {
    let src = "sequenceDiagram\n  A->>B: m1\n  A-->>B: m2\n  A->B: m3\n  A-->B: m4";
    let res = parse::seq::parse(src).unwrap();
    if let Diagram::Sequence { messages, .. } = res {
        assert_eq!(messages.len(), 4);
        for m in &messages {
            assert_eq!(m.from, "A");
            assert_eq!(m.to, "B");
        }
    } else {
        panic!("not a sequence");
    }
}

#[test]
fn test_self_message() {
    let src = "sequenceDiagram\n  A->>A: think";
    let res = parse::seq::parse(src).unwrap();
    if let Diagram::Sequence { messages, .. } = res {
        assert!(messages[0].self_msg);
    } else {
        panic!("not a sequence");
    }
}

#[test]
fn test_aliased_participant_id_resolves_to_display_name() {
    let src = "sequenceDiagram\n  participant U as User\n  participant A as App\n  U->>A: hi";
    let res = parse::seq::parse(src).unwrap();
    if let Diagram::Sequence { actors, messages } = res {
        assert_eq!(actors, vec!["User".to_string(), "App".to_string()]);
        assert_eq!(messages[0].from, "User");
        assert_eq!(messages[0].to, "App");
        assert!(!messages[0].self_msg);
    } else {
        panic!("not a sequence");
    }
}

#[test]
fn test_zero_content_is_empty_fallback() {
    let src = "sequenceDiagram\n  %% nothing";
    let res = parse::seq::parse(src);
    assert!(matches!(res, Err(Fallback::Empty { .. })));
}


#[test]
fn test_start_and_end_pseudo_states() {
    let src = "stateDiagram\n  [*] --> Idle\n  Idle --> [*]";
    let res = parse::state::parse(src).unwrap();
    if let Diagram::Graph { nodes, edges, .. } = res {
        assert!(nodes.iter().any(|n| n.shape == Shape::Start));
        assert!(nodes.iter().any(|n| n.shape == Shape::End));
        assert!(nodes.iter().any(|n| n.shape == Shape::State("Idle".to_string())));
        assert_eq!(edges.len(), 2);
        assert_eq!(edges[0].style, EdgeStyle::Transition);
    } else {
        panic!("not a graph");
    }
}

#[test]
fn test_transition_with_label() {
    let src = "stateDiagram-v2\n  Idle --> Running : start";
    let res = parse::state::parse(src).unwrap();
    if let Diagram::Graph { edges, .. } = res {
        assert_eq!(edges[0].from, "Idle");
        assert_eq!(edges[0].to, "Running");
        assert_eq!(edges[0].label, Some("start".to_string()));
    } else {
        panic!("not a graph");
    }
}

#[test]
fn state_test_zero_nodes_is_empty_fallback() {
    let src = "stateDiagram\n  %% nothing";
    let res = parse::state::parse(src);
    assert!(matches!(res, Err(Fallback::Empty { .. })));
}
