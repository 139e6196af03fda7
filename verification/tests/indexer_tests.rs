use evo::cataloging::{PackageSources, SourceFile};
use evo::channels::{parse_channel_set, Delimiter, TokenTree};
use evo::collector::{flatten_use_tree, ImplMember, MethodCall, SourceItem, UseTree};
use evo::indexer::ComponentCatalog;
use evo::model::ComponentKind;
use evo::naming::{module_for_path, qualify_item, split_top_level_commas};
use evo::shapes::{extract_message_types, PathEnd, TypeShape};

fn s(text: &str) -> String {
    text.to_string()
}

/// `use a::b::*;`
fn glob_of(path: &str) -> UseTree {
    let segments: Vec<&str> = path.split("::").collect();
    segments.into_iter().rev().fold(UseTree::Glob, |tree, segment| UseTree::Path(s(segment), Box::new(tree)))
}

fn plain(name: &str) -> TypeShape {
    TypeShape::Path {
        text: s(name),
        last: Some(PathEnd { ident: s(name), has_arguments: false, type_arguments: None }),
    }
}

fn generic(text: &str, name: &str, arguments: &[&str]) -> TypeShape {
    TypeShape::Path {
        text: s(text),
        last: Some(PathEnd {
            ident: s(name),
            has_arguments: true,
            type_arguments: Some(arguments.iter().map(|a| s(a)).collect()),
        }),
    }
}

fn message_macro(name: &str, tokens: &str) -> TypeShape {
    TypeShape::Macro { text: format!("{name} ! ({tokens})"), name: s(name), tokens: s(tokens) }
}

fn task_impl(trait_name: &str, self_name: &str, members: Vec<ImplMember>) -> SourceItem {
    SourceItem::Impl { trait_name: Some(s(trait_name)), self_type: plain(self_name), members }
}

fn ident(text: &str) -> TokenTree {
    TokenTree::Ident(s(text))
}

fn punct(c: char, joined: bool) -> TokenTree {
    TokenTree::Punct(c, joined)
}

fn literal(text: &str) -> TokenTree {
    TokenTree::Literal(s(text))
}

/// `pub struct {set} : {set}Id { {channels} }` where each channel is
/// `id => payload = "route"` (the route left out where it is empty).
fn channel_set_tokens(set: &str, channels: &[(&str, Vec<TokenTree>, &str)]) -> Vec<TokenTree> {
    let mut body = Vec::new();
    for (id, payload, route) in channels {
        body.push(ident(id));
        body.push(punct('=', true));
        body.push(punct('>', false));
        for token in payload {
            body.push(token.clone_token());
        }
        if !route.is_empty() {
            body.push(punct('=', false));
            body.push(literal(&format!("\"{route}\"")));
        }
        body.push(punct(',', false));
    }
    vec![
        ident("pub"),
        ident("struct"),
        ident(set),
        punct(':', false),
        ident(&format!("{set}Id")),
        TokenTree::Group(Delimiter::Brace, body),
    ]
}

fn channel_macro(name: &str, set: &str, id: &str, route: &str) -> SourceItem {
    SourceItem::Macro { name: s(name), tokens: channel_set_tokens(set, &[(id, vec![ident("Payload")], route)]) }
}

/// The items of the fixture library: a source reading `rate`, a sink, a
/// monitor, a re-exported sink in an inner module and a generic bridge made
/// concrete by an alias.
fn fixture_items() -> Vec<SourceItem> {
    vec![
        SourceItem::Use { public: false, tree: glob_of("cu29::prelude") },
        SourceItem::Other,
        SourceItem::Alias { name: s("TaggedPayload"), target: plain("Payload") },
        SourceItem::Other,
        task_impl(
            "CuSrcTask",
            "Source",
            vec![
                ImplMember::Type { name: s("Output"), ty: message_macro("output_msg", "'m , TaggedPayload") },
                ImplMember::Function {
                    name: s("new"),
                    calls: vec![
                        MethodCall {
                            method: s("get"),
                            first_string_argument: Some(s("rate")),
                            turbofish_type: Some(s("u32")),
                        },
                        MethodCall { method: s("unwrap"), first_string_argument: None, turbofish_type: None },
                    ],
                },
            ],
        ),
        SourceItem::Other,
        task_impl(
            "CuSinkTask",
            "Sink",
            vec![ImplMember::Type { name: s("Input"), ty: message_macro("input_msg", "'m , Payload") }],
        ),
        SourceItem::Other,
        task_impl("CuMonitor", "Monitor", vec![]),
        SourceItem::Module {
            name: s("inner"),
            items: Some(vec![
                SourceItem::Use { public: false, tree: glob_of("super") },
                SourceItem::Other,
                task_impl(
                    "CuSinkTask",
                    "Reexported",
                    vec![ImplMember::Type { name: s("Input"), ty: message_macro("input_msg", "'m , Payload") }],
                ),
            ]),
        },
        SourceItem::Use {
            public: true,
            tree: UseTree::Path(s("inner"), Box::new(UseTree::Name(s("Reexported")))),
        },
        channel_macro("tx_channels", "Tx", "command", "cmd"),
        channel_macro("rx_channels", "Rx", "state", "state"),
        SourceItem::Other,
        SourceItem::Impl {
            trait_name: Some(s("CuBridge")),
            self_type: generic("GenericBridge < T , R >", "GenericBridge", &["T", "R"]),
            members: vec![
                ImplMember::Type { name: s("Tx"), ty: plain("T") },
                ImplMember::Type { name: s("Rx"), ty: plain("R") },
            ],
        },
        SourceItem::Alias {
            name: s("ConcreteBridge"),
            target: generic("GenericBridge < Tx , Rx >", "GenericBridge", &["Tx", "Rx"]),
        },
    ]
}

fn fixture_package(files: Option<Vec<SourceFile>>) -> PackageSources {
    PackageSources {
        package_name: s("fixture"),
        crate_name: s("fixture"),
        workspace_only: false,
        root: s("/fixture/src"),
        files,
    }
}

#[test]
fn splits_lifetime_multi_port_macro() {
    let ty = message_macro("output_msg", "'m , Left , Right");
    assert_eq!(extract_message_types(&ty), vec!["Left", "Right"]);
}

#[test]
fn indexes_tasks_aliases_bridges_monitors_and_config_hints() {
    let package = fixture_package(Some(vec![SourceFile {
        path: s("/fixture/src/lib.rs"),
        relative_parts: vec![s("lib.rs")],
        items: Ok(fixture_items()),
    }]));
    let catalog = ComponentCatalog::index("fixture", &vec![package]);
    let source = catalog.find("Source").unwrap();
    let sink = catalog.find("Sink").unwrap();
    assert_eq!(source.kind, ComponentKind::Source);
    assert_eq!(source.outputs[0].canonical_type, sink.inputs[0].canonical_type);
    assert_eq!(source.config_hints[0].key, "rate");
    let bridge = catalog.find("ConcreteBridge").unwrap();
    assert_eq!(bridge.channels.len(), 2);
    assert_eq!(bridge.inputs.len(), 1);
    assert_eq!(bridge.outputs.len(), 1);
    assert_eq!(catalog.find("Monitor").unwrap().kind, ComponentKind::Monitor);
    assert_eq!(catalog.find("Reexported").unwrap().type_path, "Reexported");
}

#[test]
fn generic_bridges_appear_only_through_their_aliases() {
    let package = fixture_package(Some(vec![SourceFile {
        path: s("/fixture/src/lib.rs"),
        relative_parts: vec![s("lib.rs")],
        items: Ok(fixture_items()),
    }]));
    let catalog = ComponentCatalog::index("fixture", &vec![package]);
    assert!(catalog.find("GenericBridge").is_none());
    let bridge = catalog.find("ConcreteBridge").unwrap();
    assert_eq!(bridge.kind, ComponentKind::Bridge);
    assert_eq!(bridge.inputs[0].name, "command");
    assert_eq!(bridge.outputs[0].name, "state");
    assert_eq!(bridge.channels[0].default_route, Some(s("cmd")));
}

#[test]
fn unparsable_files_and_missing_sources_are_reported() {
    let broken = fixture_package(Some(vec![SourceFile {
        path: s("/fixture/src/lib.rs"),
        relative_parts: vec![s("lib.rs")],
        items: Err(s("expected item")),
    }]));
    let catalog = ComponentCatalog::index("fixture", &vec![broken]);
    assert!(catalog.components.is_empty());
    assert_eq!(catalog.diagnostics, vec![s("Could not parse /fixture/src/lib.rs: expected item")]);

    let missing = fixture_package(None);
    let catalog = ComponentCatalog::index("fixture", &vec![missing]);
    assert_eq!(
        catalog.diagnostics,
        vec![s("Source for package 'fixture' is not available at /fixture/src")]
    );
}

#[test]
fn library_components_are_qualified_by_crate() {
    let package = PackageSources {
        package_name: s("robot-tasks"),
        crate_name: s("robot_tasks"),
        workspace_only: true,
        root: s("/tasks/src"),
        files: Some(vec![SourceFile {
            path: s("/tasks/src/drive.rs"),
            relative_parts: vec![s("drive.rs")],
            items: Ok(vec![task_impl("CuTask", "Drive", vec![])]),
        }]),
    };
    let catalog = ComponentCatalog::index("app", &vec![package]);
    let drive = catalog.find("Drive").unwrap();
    assert_eq!(drive.type_path, "robot_tasks::drive::Drive");
    assert_eq!(drive.kind, ComponentKind::Task);
    assert!(drive.workspace_only);
}

#[test]
fn commas_split_only_at_the_top_level() {
    assert_eq!(split_top_level_commas("A<B, C>, (D, E), F"), vec!["A<B, C>", " (D, E)", " F"]);
    assert_eq!(split_top_level_commas(""), vec![""]);
}

#[test]
fn modules_follow_the_file_path() {
    assert_eq!(module_for_path(&vec![s("lib.rs")]), "");
    assert_eq!(module_for_path(&vec![s("motors"), s("mod.rs")]), "motors");
    assert_eq!(module_for_path(&vec![s("motors"), s("left.rs")]), "motors::left");
    assert_eq!(qualify_item(false, "tasks", "motors", "Left"), "tasks::motors::Left");
    assert_eq!(qualify_item(true, "tasks", "", "Left"), "Left");
}

#[test]
fn only_string_keys_read_in_new_are_hints() {
    let call = |method: &str, key: Option<&str>, ty: Option<&str>| MethodCall {
        method: s(method),
        first_string_argument: key.map(s),
        turbofish_type: ty.map(s),
    };
    let task = |function: &str| {
        task_impl(
            "CuTask",
            "Worker",
            vec![ImplMember::Function {
                name: s(function),
                calls: vec![
                    call("get_value", Some("gain"), Some("f64")),
                    call("get", None, Some("u8")),
                    call("insert", Some("ignored"), None),
                    call("get", Some("alpha"), None),
                    call("get", Some("gain"), Some("f32")),
                ],
            }],
        )
    };
    let package = |items: Vec<SourceItem>| {
        fixture_package(Some(vec![SourceFile {
            path: s("/fixture/src/lib.rs"),
            relative_parts: vec![s("lib.rs")],
            items: Ok(items),
        }]))
    };
    let catalog = ComponentCatalog::index("fixture", &vec![package(vec![task("new")])]);
    let hints: Vec<(String, Option<String>)> = catalog
        .find("Worker")
        .unwrap()
        .config_hints
        .iter()
        .map(|hint| (hint.key.clone(), hint.rust_type.clone()))
        .collect();
    assert_eq!(hints, vec![(s("alpha"), None), (s("gain"), Some(s("f64")))]);
    let catalog = ComponentCatalog::index("fixture", &vec![package(vec![task("process")])]);
    assert!(catalog.find("Worker").unwrap().config_hints.is_empty());
}

trait CloneToken {
    fn clone_token(&self) -> TokenTree;
}

impl CloneToken for TokenTree {
    fn clone_token(&self) -> TokenTree {
        match self {
            TokenTree::Ident(text) => TokenTree::Ident(text.clone()),
            TokenTree::Punct(c, joined) => TokenTree::Punct(*c, *joined),
            TokenTree::Literal(text) => TokenTree::Literal(text.clone()),
            TokenTree::Group(delimiter, tokens) => {
                TokenTree::Group(*delimiter, tokens.iter().map(|token| token.clone_token()).collect())
            }
        }
    }
}

fn path(parts: &[&str]) -> Vec<TokenTree> {
    let mut tokens = Vec::new();
    for (index, part) in parts.iter().enumerate() {
        if index > 0 {
            tokens.push(punct(':', true));
            tokens.push(punct(':', false));
        }
        tokens.push(ident(part));
    }
    tokens
}

#[test]
fn parses_bridge_channels() {
    let tokens = channel_set_tokens(
        "Tx",
        &[("left", path(&["common", "Cmd"]), "motor/left"), ("right", path(&["common", "Cmd"]), "")],
    );
    let syntax = parse_channel_set(&tokens).unwrap();
    assert_eq!(syntax.name, "Tx");
    assert_eq!(syntax.channels.len(), 2);
    assert_eq!(syntax.channels[0].route.as_ref().unwrap(), "motor/left");
    assert_eq!(syntax.channels[0].payload, "common :: Cmd");
    assert_eq!(syntax.channels[1].route, None);
}

#[test]
fn channel_payloads_may_hold_commas_and_equals_in_generics() {
    let payload = vec![
        ident("Map"),
        punct('<', false),
        ident("u8"),
        punct(',', false),
        ident("Iter"),
        punct('<', false),
        ident("Item"),
        punct('=', false),
        ident("u16"),
        punct('>', false),
        punct('>', false),
    ];
    let tokens = channel_set_tokens("Rx", &[("state", payload, "bus/state")]);
    let syntax = parse_channel_set(&tokens).unwrap();
    assert_eq!(syntax.channels.len(), 1);
    assert_eq!(syntax.channels[0].payload, "Map < u8 , Iter < Item = u16 > >");
    assert_eq!(syntax.channels[0].route.as_deref(), Some("bus/state"));
}

#[test]
fn malformed_channel_sets_declare_nothing() {
    let missing_arrow = vec![
        ident("struct"),
        ident("Tx"),
        punct(':', false),
        ident("TxId"),
        TokenTree::Group(Delimiter::Brace, vec![ident("left"), ident("Payload")]),
    ];
    assert!(parse_channel_set(&missing_arrow).is_none());
    let keyword_name = vec![
        ident("pub"),
        ident("struct"),
        ident("type"),
        punct(':', false),
        ident("TxId"),
        TokenTree::Group(Delimiter::Brace, vec![]),
    ];
    assert!(parse_channel_set(&keyword_name).is_none());
    let restricted = vec![
        ident("pub"),
        TokenTree::Group(Delimiter::Parenthesis, vec![ident("crate")]),
        ident("struct"),
        ident("Tx"),
        punct(':', false),
        ident("TxId"),
        TokenTree::Group(Delimiter::Brace, vec![]),
    ];
    let empty = parse_channel_set(&restricted).unwrap();
    assert!(empty.channels.is_empty());
    let route_not_a_string = channel_set_tokens("Tx", &[("left", vec![ident("Payload")], "")]);
    let mut broken = route_not_a_string;
    if let TokenTree::Group(_, body) = &mut broken[5] {
        body.insert(4, punct('=', false));
        body.insert(5, literal("42"));
    }
    assert!(parse_channel_set(&broken).is_none());
}

#[test]
fn use_trees_name_each_import_with_its_full_path() {
    let tree = UseTree::Path(
        s("cu29"),
        Box::new(UseTree::Group(vec![
            UseTree::Name(s("Payload")),
            UseTree::Rename(s("Clock"), s("RobotClock")),
            UseTree::Path(s("units"), Box::new(UseTree::Glob)),
            UseTree::Path(s("config"), Box::new(UseTree::Name(s("ComponentConfig")))),
        ])),
    );
    assert_eq!(
        flatten_use_tree(&tree),
        vec![
            (s("Payload"), s("cu29::Payload")),
            (s("RobotClock"), s("cu29::Clock")),
            (s("ComponentConfig"), s("cu29::config::ComponentConfig")),
        ]
    );
    assert!(flatten_use_tree(&glob_of("inner")).is_empty());
}

#[test]
fn payload_types_are_printed_as_rust_prints_them() {
    let payload = vec![
        ident("Vec"),
        punct('<', false),
        ident("Vec"),
        punct('<', false),
        ident("u8"),
        punct('>', true),
        punct('>', false),
    ];
    let tokens = channel_set_tokens("Tx", &[("frames", payload, "")]);
    let syntax = parse_channel_set(&tokens).unwrap();
    assert_eq!(syntax.channels[0].payload, "Vec < Vec < u8 > >");
}

#[test]
fn catalog_lists_components_by_kind_then_path_without_repeats() {
    let package = fixture_package(Some(vec![SourceFile {
        path: s("/fixture/src/lib.rs"),
        relative_parts: vec![s("lib.rs")],
        items: Ok(fixture_items()),
    }]));
    let catalog = ComponentCatalog::index("fixture", &vec![package]);
    assert!(catalog.components.len() > 1);
    for pair in catalog.components.windows(2) {
        let before = (pair[0].kind.label(), pair[0].type_path.as_str());
        let after = (pair[1].kind.label(), pair[1].type_path.as_str());
        assert!(before < after);
        assert_ne!(pair[0].type_path, pair[1].type_path);
    }
}
