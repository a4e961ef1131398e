use ycg_core::adhoc_format::{
    escape_pipes, split_escaped, unescape_pipes, AdHocParseError, AdHocParser, AdHocSerializer,
};
use ycg_core::adhoc_serializer_v2::{AdHocSerializerV2, SourceMap};
use ycg_core::adjacency::{AdjacencyGraph, EdgeMap};
use ycg_core::ast_cache::AstCache;
use ycg_core::config::{ConfigLoader, MergedConfig};
use ycg_core::errors::{ConfigError, FileFilterError, ParseError, ValidationError, YcgError};
use ycg_core::logic_extractor::LogicExtractor;
use ycg_core::model::{
    AdHocGranularity, EdgeType, FileFilterConfig, IgnoreConfig, OutputConfig, OutputFormat,
    ProjectMetadata, ReferenceEdge, ScipSymbolKind, SymbolNode, YcgConfigFile, YcgGraph,
    YcgGraphAdHoc, YcgGraphOptimized,
};
use ycg_core::project::{detect_project_language, Indexer, ProjectLanguage};
use ycg_core::signature_extractor::SignatureExtractor;
use ycg_core::type_abbreviator::TypeAbbreviator;
use ycg_core::validators::{
    count_unescaped_pipes, split_unescaped_pipes, validate_adhoc_granularity,
    validate_graph_integrity, validate_graph_integrity_adhoc, validate_graph_integrity_optimized,
    validate_logic_keywords, AdHocValidationError, AdHocValidator, GranularityError,
};

fn node(id: &str, name: &str, kind: ScipSymbolKind, signature: Option<&str>) -> SymbolNode {
    SymbolNode {
        id: id.to_string(),
        name: name.to_string(),
        kind,
        parent_id: None,
        documentation: None,
        signature: signature.map(|s| s.to_string()),
        logic: None,
    }
}

fn meta() -> ProjectMetadata {
    ProjectMetadata { name: "test".to_string(), version: "1.0".to_string() }
}

fn edge(from: &str, to: &str) -> ReferenceEdge {
    ReferenceEdge { from: from.to_string(), to: to.to_string(), edge_type: EdgeType::Calls }
}

fn adhoc(definitions: Vec<&str>) -> YcgGraphAdHoc {
    YcgGraphAdHoc {
        metadata: meta(),
        definitions: definitions.into_iter().map(|s| s.to_string()).collect(),
        adjacency: AdjacencyGraph::new(),
    }
}

const ALL_KINDS: [ScipSymbolKind; 7] = [
    ScipSymbolKind::File,
    ScipSymbolKind::Module,
    ScipSymbolKind::Class,
    ScipSymbolKind::Method,
    ScipSymbolKind::Function,
    ScipSymbolKind::Variable,
    ScipSymbolKind::Interface,
];

// ---- round trip -------------------------------------------------------

#[test]
fn round_trip_keeps_id_name_kind() {
    let texts = ["", "plain", "a|b", "|", "||", "a\\b", "\\a", "\\|x", "a\\|b", "x|\\|y", "é|ü"];
    for id in texts {
        for name in texts {
            for kind in ALL_KINDS {
                let n = node(id, name, kind, None);
                let parsed = AdHocParser::parse_node(&AdHocSerializer::serialize_node(&n)).unwrap();
                assert_eq!(parsed.id, id);
                assert_eq!(parsed.name, name);
                assert_eq!(parsed.kind, kind);
                assert!(parsed.parent_id.is_none());
                assert!(parsed.documentation.is_none());
                assert!(parsed.signature.is_none());
                assert!(parsed.logic.is_none());
            }
        }
    }
}

#[test]
fn a_trailing_backslash_swallows_the_separator() {
    let n = node("a\\", "b", ScipSymbolKind::Class, None);
    let s = AdHocSerializer::serialize_node(&n);
    assert_eq!(s, "a\\|b|class");
    assert_eq!(count_unescaped_pipes(&s), 1);
    assert!(AdHocParser::parse_node(&s).is_err());
}

#[test]
fn escaped_pipes_parse_back() {
    let parsed = AdHocParser::parse_node(r"weird\|id|name\|with\|pipes|function").unwrap();
    assert_eq!(parsed.id, "weird|id");
    assert_eq!(parsed.name, "name|with|pipes");
    assert_eq!(parsed.kind, ScipSymbolKind::Function);
}

#[test]
fn escaping_and_unescaping() {
    assert_eq!(escape_pipes(""), "");
    assert_eq!(escape_pipes("|"), "\\|");
    assert_eq!(escape_pipes("\\|"), "\\\\|");
    assert_eq!(unescape_pipes("\\\\|"), "\\|");
    assert_eq!(unescape_pipes("\\"), "\\");
    assert_eq!(unescape_pipes("a\\"), "a\\");
    assert_eq!(unescape_pipes("\\|\\|"), "||");
    assert_eq!(unescape_pipes("|"), "|");
}

#[test]
fn splitting_at_separators() {
    let s = |v: &[&str]| v.iter().map(|x| x.to_string()).collect::<Vec<String>>();
    assert_eq!(split_escaped("").unwrap(), s(&[""]));
    assert_eq!(split_escaped("|").unwrap(), s(&["", ""]));
    assert_eq!(split_escaped("a|").unwrap(), s(&["a", ""]));
    assert_eq!(split_escaped("\\").unwrap(), s(&["\\"]));
    assert_eq!(split_escaped("a\\").unwrap(), s(&["a\\"]));
    assert_eq!(split_escaped("\\\\|a").unwrap(), s(&["\\\\|a"]));
    assert_eq!(split_escaped("\\||a").unwrap(), s(&["\\|", "a"]));
    assert_eq!(split_escaped("a\\b|c").unwrap(), s(&["a\\b", "c"]));
    assert_eq!(split_unescaped_pipes(""), Vec::<String>::new());
    assert_eq!(split_unescaped_pipes("a|"), s(&["a"]));
    assert_eq!(split_unescaped_pipes("a||"), s(&["a", ""]));
    assert_eq!(split_unescaped_pipes("|a"), s(&["", "a"]));
    assert_eq!(count_unescaped_pipes(""), 0);
    assert_eq!(count_unescaped_pipes("|"), 1);
    assert_eq!(count_unescaped_pipes("\\|"), 0);
    assert_eq!(count_unescaped_pipes("\\\\|"), 0);
    assert_eq!(count_unescaped_pipes("\\||"), 1);
    assert_eq!(count_unescaped_pipes("a\\"), 0);
}

#[test]
fn parse_errors_and_their_messages() {
    match AdHocParser::parse_node("only|two") {
        Err(e) => {
            assert!(matches!(e, AdHocParseError::FieldCount { found: 2, .. }));
            assert_eq!(
                e.to_string(),
                "Invalid ad-hoc format: expected 3 fields, got 2. Input: 'only|two'"
            );
        }
        Ok(_) => panic!("two fields are no node"),
    }
    match AdHocParser::parse_node("a|b|c|d") {
        Err(e) => assert!(matches!(e, AdHocParseError::FieldCount { found: 4, .. })),
        Ok(_) => panic!("four fields are no node"),
    }
    match AdHocParser::parse_node("id|name|klass") {
        Err(e) => {
            assert!(matches!(e, AdHocParseError::InvalidKind { .. }));
            assert_eq!(e.to_string(), "Invalid symbol kind: 'klass'");
        }
        Ok(_) => panic!("klass is no kind"),
    }
    match ycg_core::adhoc_format::string_to_kind("nope") {
        Err(e) => assert_eq!(e.to_string(), "Unknown symbol kind: 'nope'"),
        Ok(_) => panic!("nope is no kind"),
    }
    assert_eq!(
        AdHocParser::parse_node("id|name|MeThOd").unwrap().kind,
        ScipSymbolKind::Method
    );
    let bad = adhoc(vec!["a|b|class", "x", "y|z"]);
    match AdHocParser::parse_graph(&bad) {
        Err(e) => assert!(matches!(e, AdHocParseError::FieldCount { found: 1, .. })),
        Ok(_) => panic!("the second definition is no node"),
    }
}

#[test]
fn parse_graph_sorts_the_edges() {
    let mut adjacency = AdjacencyGraph::new();
    let mut b_edges = EdgeMap::new();
    b_edges.insert(EdgeType::Imports, vec!["a".to_string()]);
    b_edges.insert(EdgeType::Calls, vec!["z".to_string(), "a".to_string(), "a".to_string()]);
    adjacency.insert("b".to_string(), b_edges);
    let mut a_edges = EdgeMap::new();
    a_edges.insert(EdgeType::References, vec!["b".to_string()]);
    adjacency.insert("a".to_string(), a_edges);
    let g = YcgGraphAdHoc {
        metadata: meta(),
        definitions: vec!["a|A|class".to_string(), "b|B|class".to_string()],
        adjacency,
    };
    let parsed = AdHocParser::parse_graph(&g).unwrap();
    let got: Vec<(String, String, EdgeType)> =
        parsed.references.iter().map(|e| (e.from.clone(), e.to.clone(), e.edge_type)).collect();
    let t = |f: &str, to: &str, ty| (f.to_string(), to.to_string(), ty);
    assert_eq!(
        got,
        vec![
            t("a", "b", EdgeType::References),
            t("b", "a", EdgeType::Calls),
            t("b", "a", EdgeType::Calls),
            t("b", "a", EdgeType::Imports),
            t("b", "z", EdgeType::Calls),
        ]
    );
    assert_eq!(parsed.metadata.version, "1.0");
}

// ---- adjacency ---------------------------------------------------------

#[test]
fn adjacency_keeps_keys_in_order_and_replaces() {
    let mut a = AdjacencyGraph::new();
    assert!(a.is_empty());
    for key in ["m", "a", "z", "b"] {
        let mut edges = EdgeMap::new();
        edges.insert(EdgeType::Calls, vec![key.to_string()]);
        a.insert(key.to_string(), edges);
    }
    assert_eq!(a.len(), 4);
    let keys: Vec<String> = (0..a.len()).map(|i| a.entry(i).unwrap().source.clone()).collect();
    assert_eq!(keys, vec!["a", "b", "m", "z"]);
    let mut other = EdgeMap::new();
    other.insert(EdgeType::Imports, vec!["q".to_string()]);
    other.insert(EdgeType::Calls, vec!["p".to_string()]);
    other.insert(EdgeType::References, vec![]);
    other.insert(EdgeType::Calls, vec!["r".to_string()]);
    assert_eq!(other.len(), 3);
    assert_eq!(other.group(0).unwrap().edge_type, EdgeType::Calls);
    assert_eq!(other.group(1).unwrap().edge_type, EdgeType::References);
    assert_eq!(other.group(2).unwrap().edge_type, EdgeType::Imports);
    assert!(other.group(3).is_none());
    assert_eq!(other.get(&EdgeType::Calls), Some(&vec!["r".to_string()]));
    a.insert("m".to_string(), other);
    assert_eq!(a.len(), 4);
    assert!(a.contains_key("m"));
    assert!(!a.contains_key("n"));
    assert!(a.get("n").is_none());
    let m = a.get("m").unwrap();
    assert!(m.contains_key(&EdgeType::Imports));
    assert!(!a.get("a").unwrap().contains_key(&EdgeType::Imports));
    assert!(a.get("a").unwrap().get(&EdgeType::Imports).is_none());
    assert_eq!(a.find("z"), Some(3));
    assert_eq!(m.find(EdgeType::Imports), Some(2));
    let mut grown = AdjacencyGraph::new();
    grown.add_edge(&edge("s", "t2"));
    grown.add_edge(&edge("s", "t1"));
    grown.add_edge(&edge("r", "t1"));
    assert_eq!(grown.len(), 2);
    assert_eq!(
        grown.get("s").unwrap().get(&EdgeType::Calls),
        Some(&vec!["t1".to_string(), "t2".to_string()])
    );
}

// ---- granularity -------------------------------------------------------

#[test]
fn field_count_at_each_level() {
    let nodes = vec![
        node("a", "f", ScipSymbolKind::Function, Some("f(x: A | B): C | null")),
        node("b|c", "g|h", ScipSymbolKind::Method, None),
        node("", "", ScipSymbolKind::File, Some("")),
        node("d", "k", ScipSymbolKind::Class, Some("no parens | here")),
    ];
    for level in
        [AdHocGranularity::Default, AdHocGranularity::InlineSignatures, AdHocGranularity::InlineLogic]
    {
        let serializer = AdHocSerializerV2::new(level);
        for n in &nodes {
            assert_eq!(count_unescaped_pipes(&serializer.serialize_node(n, "source")), 2);
        }
    }
    let serializer = AdHocSerializerV2::new(AdHocGranularity::InlineLogic);
    for n in &nodes {
        let with = serializer.serialize_with_logic_field(n, Some("logic:check(a|b)".to_string()));
        assert_eq!(count_unescaped_pipes(&with), 3);
        let without = serializer.serialize_with_logic_field(n, None);
        assert_eq!(count_unescaped_pipes(&without), 2);
    }
}

#[test]
fn level_two_with_logic_has_four_fields() {
    let serializer = AdHocSerializerV2::new(AdHocGranularity::InlineLogic);
    let n = node("checkStock_7fed", "checkStock", ScipSymbolKind::Method, Some("checkStock(itemId: string): boolean"));
    assert_eq!(
        serializer.serialize_with_logic_field(&n, Some("logic:return(item.qty>0)".to_string())),
        "checkStock_7fed|checkStock(itemId:str):bool|method|logic:return(item.qty>0)"
    );
    assert_eq!(
        serializer.serialize_with_logic_field(&n, Some("logic:match(a|b)".to_string())),
        "checkStock_7fed|checkStock(itemId:str):bool|method|logic:match(a\\|b)"
    );
    assert_eq!(
        serializer.serialize_with_logic_field(&n, None),
        "checkStock_7fed|checkStock(itemId:str):bool|method"
    );
    assert_eq!(serializer.serialize_with_logic(&n, "x"), serializer.serialize_with_signature(&n, "x"));
    assert_eq!(serializer.serialize_default(&n), "checkStock_7fed|checkStock|method");
}

#[test]
fn serializing_a_graph_looks_sources_up_in_the_cache() {
    let graph = YcgGraph {
        metadata: meta(),
        definitions: vec![
            node("a", "A", ScipSymbolKind::Class, None),
            node("b", "B", ScipSymbolKind::Class, None),
            node("a", "A2", ScipSymbolKind::Class, None),
        ],
        references: vec![edge("a", "b")],
    };
    let mut sources = SourceMap::new();
    sources.insert("a".to_string(), "class A {}".to_string());
    sources.insert("b".to_string(), "".to_string());
    assert_eq!(sources.get("a"), Some(&"class A {}".to_string()));
    assert!(sources.get("c").is_none());

    let mut cache = AstCache::new();
    let out = AdHocSerializerV2::new(AdHocGranularity::Default)
        .serialize_graph_with_cache(&graph, &sources, &mut cache);
    assert_eq!(out.definitions, vec!["a|A|class", "b|B|class", "a|A2|class"]);
    assert_eq!(cache.len(), 0);
    assert_eq!(cache.stats().total_accesses(), 0);

    let out = AdHocSerializerV2::new(AdHocGranularity::InlineLogic)
        .serialize_graph_with_cache(&graph, &sources, &mut cache);
    assert_eq!(out.definitions, vec!["a|A|class", "b|B|class", "a|A2|class"]);
    assert_eq!(cache.len(), 1);
    assert_eq!(cache.stats().misses, 1);
    assert_eq!(cache.stats().hits, 1);
    assert_eq!(cache.stats().cached_files, 1);
    assert_eq!(cache.get("a").unwrap().source, "class A {}");
    assert_eq!(out.adjacency.len(), 1);
}

// ---- signatures and types ----------------------------------------------

#[test]
fn compact_signature_examples() {
    assert_eq!(
        SignatureExtractor::compact_signature("findOne(id: string): User | null", "findOne"),
        "findOne(id:str):User?"
    );
    assert_eq!(
        SignatureExtractor::compact_signature("deleteUser(id: string): void", "deleteUser"),
        "deleteUser(id:str)"
    );
    assert_eq!(
        SignatureExtractor::compact_signature(
            "async findOne(id: string, opts?: Options): Promise<User | null>",
            "findOne"
        ),
        "findOne(id:str,opts:Options?):Promise<User"
    );
}

#[test]
fn signatures_at_the_edges() {
    let c = SignatureExtractor::compact_signature;
    assert_eq!(c("", "m"), "m");
    assert_eq!(c("(", "m"), "m");
    assert_eq!(c(")(", "m"), "m");
    assert_eq!(c("f(()", "m"), "m");
    assert_eq!(c("()", "m"), "m()");
    assert_eq!(c("  (a: string)", "m"), "m(a:str)");
    assert_eq!(c("f(a: string))", "m"), "f(a:str)");
    assert_eq!(c("f(cb: (x: number) => void, n: number): string", "m"), "f(cb:(x: number)):str");
    assert_eq!(c("f(a, b: number)", "m"), "f(b:num)");
    assert_eq!(c("f(a?: string?)", "m"), "f(a:str?)");
    assert_eq!(c("f(a = 1: string)", "m"), "f()");
    assert_eq!(c("f(a: string = 'x,y', b: boolean)", "m"), "f(a:str,b:bool)");
    assert_eq!(c("f( , a: string,, )", "m"), "f(a:str)");
    assert_eq!(c("f(): string | undefined", "m"), "f():str?");
    assert_eq!(c("f(): null", "m"), "f():null");
    assert_eq!(c("f(): null | undefined", "m"), "f():null | undefined");
    assert_eq!(c("f(): A | B | null", "m"), "f():A");
    assert_eq!(c("f(): Map<string, number[]>", "m"), "f():Map<str,num[]>");
    assert_eq!(c("public static async f(): void", "m"), "f()");
    assert_eq!(c("exportasync f()", "m"), "exportf()");
    assert_eq!(c("f(x: static string)", "m"), "f(x:str)");
    assert_eq!(SignatureExtractor::parse_parameters("   "), Vec::<(String, String)>::new());
    assert_eq!(
        SignatureExtractor::parse_parameters("a: Map<string, number>, b?: [number, string]"),
        vec![
            ("a".to_string(), "Map<string, number>".to_string()),
            ("b".to_string(), "[number, string]?".to_string()),
        ]
    );
    assert_eq!(SignatureExtractor::normalize_optional_type(" A "), "A");
    assert_eq!(SignatureExtractor::normalize_optional_type("|"), "");
    assert_eq!(SignatureExtractor::normalize_optional_type("null|A"), "A?");
}

#[test]
fn node_signatures() {
    let with = node("i", "findOne", ScipSymbolKind::Method, Some("findOne(id: string): User"));
    assert_eq!(SignatureExtractor::extract_signature(&with), Some("findOne(id:str):User".to_string()));
    let without = node("i", "findOne", ScipSymbolKind::Method, None);
    assert_eq!(SignatureExtractor::extract_signature(&without), None);
    let mut cache = AstCache::new();
    cache.get_or_parse("f.ts", "src");
    assert_eq!(
        SignatureExtractor::extract_signature_with_cache(&with, "f.ts", &mut cache),
        Some("findOne(id:str):User".to_string())
    );
    assert_eq!(SignatureExtractor::extract_signature_with_cache(&without, "f.ts", &mut cache), None);
    assert_eq!(SignatureExtractor::extract_signature_with_cache(&without, "g.ts", &mut cache), None);
    assert_eq!(cache.stats().total_accesses(), 1);
    assert_eq!(LogicExtractor::extract_logic_with_cache(&with, "f.ts", &mut cache), None);
    assert_eq!(cache.len(), 1);
}

#[test]
fn abbreviation_is_idempotent_on_types() {
    let types = [
        "", "string", "number", "boolean", "any", "void", "str", "User", "string[]", "string[][]",
        "string?", "string?[]", "string[]?", "Promise<string>", "Map<string,number>",
        "Map<string, number>", "Promise<Map<string,number[]>[]>?", "A<B<C<string>>>",
        "Either<string[],boolean?>", " string ", "a.b.C", "x>y", "[]", "?", "<>", "A<>",
        "Record<string,Array<number>>", "M<a<b>>c<,e>", "A<string>tail", "A<a, ,b>", "string ?",
        "A< a , <b,c> >", "a>b<c", "A<,string,,number,>", " string [] ", "A<string >?",
        "Map< string , number >[]", "A<string> ?", "A<B<string>,>x>", ",", "<,>", ">,<",
        "A<string>>", "A<<string>", "string? []", "A< >", "A<\t>", "A<number,\u{3000}>",
    ];
    for t in types {
        let once = TypeAbbreviator::abbreviate(t);
        assert_eq!(TypeAbbreviator::abbreviate(&once), once, "for {:?}", t);
    }
}

#[test]
fn abbreviation_of_odd_types() {
    let a = TypeAbbreviator::abbreviate;
    assert_eq!(a(""), "");
    assert_eq!(a("   "), "");
    assert_eq!(a("[]"), "[]");
    assert_eq!(a("?"), "?");
    assert_eq!(a("string?[]?"), "str?[]?");
    assert_eq!(a("string ?"), "str?");
    assert_eq!(a("A<string>tail"), "A<string>tail");
    assert_eq!(a("A<string>tail>"), "A<string>tail>");
    assert_eq!(a("A<number>x<boolean>"), "A<number>x<boolean>");
    assert_eq!(a("string []"), "str[]");
    assert_eq!(a("string? []"), "str?[]");
    assert_eq!(a("Map< string , number >[]"), "Map<str,num>[]");
    assert_eq!(a("A<string> ?"), "A<str>?");
    assert_eq!(a("A<a, ,b>"), "A<a,b>");
    assert_eq!(a("A< >"), "A<>");
    assert_eq!(a("A<string>>"), "A<string>>");
    assert_eq!(a("A<<string>"), "A<<string>");
    assert_eq!(a("M<a<b>>c<,e>"), "M<a<b>>c<,e>");
    assert_eq!(a("string <number>"), "str<num>");
    assert_eq!(a("string<number>"), "str<num>");
    assert_eq!(a("A<,string,,number,>"), "A<str,num>");
    assert_eq!(a("A<B<string,number>,boolean>"), "A<B<str,num>,bool>");
    assert_eq!(a("a>b<c"), "a>b<c");
    assert_eq!(a(">string<"), ">string<");
    assert_eq!(a("<string"), "<string");
    assert_eq!(a("string>"), "string>");
    assert_eq!(a("A<string"), "A<string");
    assert_eq!(a("STRING"), "STRING");
    assert_eq!(a("\u{a0}number\u{2003}"), "num");
    assert_eq!(a("A< a , <b,c> >"), "A<a,<b,c>>");
}

// ---- logic -------------------------------------------------------------

#[test]
fn truncation_keeps_197_characters_and_adds_an_ellipsis() {
    let long = "y".repeat(201);
    assert_eq!(LogicExtractor::truncate_logic(&long), format!("{}...", "y".repeat(197)));
    let exact = "y".repeat(200);
    assert_eq!(LogicExtractor::truncate_logic(&exact), exact);
    assert_eq!(LogicExtractor::truncate_logic(""), "");
    let wide = "é".repeat(150);
    assert_eq!(LogicExtractor::truncate_logic(&wide), wide);
    let wider = "é".repeat(250);
    let cut = LogicExtractor::truncate_logic(&wider);
    assert_eq!(cut.chars().count(), 200);
    assert_eq!(cut, format!("{}...", "é".repeat(197)));
}

#[test]
fn logic_validation() {
    let v = LogicExtractor::validate_logic;
    assert!(v("logic:"));
    assert!(v("logic:;;"));
    assert!(v("logic: check(a) ;get(b)"));
    assert!(v("logic:checkout(a)"));
    assert!(v("logic:getter"));
    assert!(!v("logic:Check(a)"));
    assert!(!v("Logic:check(a)"));
    assert!(!v("logic"));
    assert!(!v(""));
    assert!(!v("logic:check(a);x"));
    assert!(v(&format!("logic:check({})", "é".repeat(193))));
    assert!(!v(&format!("logic:check({})", "é".repeat(194))));
    assert!(LogicExtractor::validate_keywords(" ; ;"));
    assert!(LogicExtractor::validate_keywords("ret..."));
    assert!(LogicExtractor::validate_keywords("check(a); bogus(x... ;get(b)"));
    assert!(!LogicExtractor::validate_keywords("ret.."));
    assert!(!LogicExtractor::validate_keywords("...x"));
    assert!(v("logic:check(x>0);act..."));
    assert!(v("logic:..."));
    assert!(!v("logic:check(x>0);act"));
    assert!(!v("logic:bogus(x)"));
    let n = node("i", "m", ScipSymbolKind::Method, None);
    assert_eq!(LogicExtractor::extract_logic(&n, "function m() { return 1; }"), None);
}

// ---- validators --------------------------------------------------------

#[test]
fn level_two_validation() {
    let three = adhoc(vec!["m_1|m(x:num)|method"]);
    assert!(validate_adhoc_granularity(&three, AdHocGranularity::InlineLogic).is_ok());
    let four = adhoc(vec!["m_1|m(x:num)|method|logic:check(x>0);return(true)"]);
    assert!(validate_adhoc_granularity(&four, AdHocGranularity::InlineLogic).is_ok());
    let bogus = adhoc(vec!["m_1|m(x:num)|method", "m_2|m(x:num)|method|logic:bogus(x)"]);
    match validate_adhoc_granularity(&bogus, AdHocGranularity::InlineLogic) {
        Err(GranularityError::LogicKeyword { index, keyword, definition }) => {
            assert_eq!(index, 1);
            assert_eq!(keyword, "bogus");
            assert_eq!(definition, "m_2|m(x:num)|method|logic:bogus(x)");
        }
        other => panic!("expected an invalid keyword, got {:?}", other),
    }
    let unmarked = adhoc(vec!["m_1|m(x:num)|method|check(x>0);return(true)"]);
    match validate_adhoc_granularity(&unmarked, AdHocGranularity::InlineLogic) {
        Err(GranularityError::LogicPrefix { index, field, .. }) => {
            assert_eq!(index, 0);
            assert_eq!(field, "check(x>0);return(true)");
        }
        other => panic!("expected a missing prefix, got {:?}", other),
    }
}

#[test]
fn granularity_errors_and_their_messages() {
    let g = adhoc(vec!["a|b|class", "a|b"]);
    let e = validate_adhoc_granularity(&g, AdHocGranularity::Default).unwrap_err();
    assert_eq!(
        e.to_string(),
        "Invalid ad-hoc format at definition 1 for granularity level 'default': expected 3 fields, got 2. Definition: 'a|b'"
    );
    let e = validate_adhoc_granularity(&g, AdHocGranularity::InlineSignatures).unwrap_err();
    assert_eq!(
        e.to_string(),
        "Invalid ad-hoc format at definition 1 for granularity level 'signatures': expected 3 fields, got 2. Definition: 'a|b'"
    );
    let e = validate_adhoc_granularity(&g, AdHocGranularity::InlineLogic).unwrap_err();
    assert_eq!(
        e.to_string(),
        "Invalid ad-hoc format at definition 1 for granularity level 'logic': expected 3 or 4 fields, got 2. Definition: 'a|b'"
    );
    let g = adhoc(vec!["a|b|class|"]);
    let e = validate_adhoc_granularity(&g, AdHocGranularity::InlineLogic).unwrap_err();
    assert_eq!(
        e.to_string(),
        "Invalid logic field at definition 0: logic field must start with 'logic:', got ''. Definition: 'a|b|class|'"
    );
    let g = adhoc(vec!["a|b|class|logic:check(x);  nope ;bad(y)"]);
    let e = validate_adhoc_granularity(&g, AdHocGranularity::InlineLogic).unwrap_err();
    assert_eq!(
        e.to_string(),
        "Invalid logic keyword at definition 0: found 'nope', valid keywords are: check, action, return, match, get. Definition: 'a|b|class|logic:check(x);  nope ;bad(y)'"
    );
    assert!(validate_logic_keywords("check(a);get;match(x)?a:b; cut...", 0, "d").is_ok());
    assert!(validate_logic_keywords("", 0, "d").is_ok());
    match validate_logic_keywords("checkout(a)", 4, "d") {
        Err(GranularityError::LogicKeyword { index: 4, keyword, .. }) => assert_eq!(keyword, "checkout"),
        other => panic!("expected an invalid keyword, got {:?}", other),
    }
    match validate_logic_keywords("cut(a...", 0, "d") {
        Err(GranularityError::LogicKeyword { keyword, .. }) => assert_eq!(keyword, "cut"),
        other => panic!("expected an invalid keyword, got {:?}", other),
    }
    match validate_logic_keywords("(x)", 0, "d") {
        Err(GranularityError::LogicKeyword { keyword, .. }) => assert_eq!(keyword, ""),
        other => panic!("expected an invalid keyword, got {:?}", other),
    }
}

#[test]
fn validator_reports_the_check_that_failed() {
    let short = adhoc(vec!["a|b"]);
    match AdHocValidator::validate(&short) {
        Err(e) => {
            assert!(matches!(e, AdHocValidationError::FieldCount { index: 0, found: 2, .. }));
            assert_eq!(
                e.to_string(),
                "Invalid ad-hoc format at definition 0: expected 3 fields, got 2. Definition: 'a|b'"
            );
        }
        Ok(_) => panic!("two fields are not valid"),
    }
    match AdHocValidator::validate_with_granularity(&short, AdHocGranularity::Default) {
        Err(e) => {
            assert!(matches!(e, AdHocValidationError::Granularity(_)));
            assert_eq!(e.to_string(), "Ad-hoc granularity validation failed");
        }
        Ok(_) => panic!("two fields are not valid"),
    }
    let mut dangling = adhoc(vec!["a|A|class"]);
    dangling.adjacency.add_edge(&edge("a", "zz"));
    match AdHocValidator::validate_with_granularity(&dangling, AdHocGranularity::InlineLogic) {
        Err(AdHocValidationError::Integrity(inner)) => {
            assert!(matches!(inner, ValidationError::ReferentialIntegrityViolation { count: 1, .. }));
        }
        other => panic!("expected an integrity violation, got {:?}", other),
    }
}

#[test]
fn integrity_holds_without_dangling_edges_and_counts_one_unknown_target() {
    let mut graph = YcgGraph {
        metadata: meta(),
        definitions: vec![
            node("a", "A", ScipSymbolKind::Class, None),
            node("b", "B", ScipSymbolKind::Class, None),
        ],
        references: vec![edge("a", "b"), edge("b", "a"), edge("a", "a")],
    };
    assert!(validate_graph_integrity(&graph).is_ok());
    graph.references.push(edge("a", "ghost"));
    match validate_graph_integrity(&graph) {
        Err(ValidationError::ReferentialIntegrityViolation { count, details }) => {
            assert_eq!(count, 1);
            assert_eq!(details, "  - Edge from 'a' to 'ghost': target ID not found in definitions\n");
        }
        other => panic!("expected one violation, got {:?}", other),
    }
    let empty = YcgGraph { metadata: meta(), definitions: vec![], references: vec![] };
    assert!(validate_graph_integrity(&empty).is_ok());
}

#[test]
fn integrity_shows_five_violations_and_counts_the_rest() {
    let mut references = vec![edge("x", "a"), edge("x", "y"), edge("a", "y")];
    for i in 0..4 {
        references.push(edge("a", &format!("t{}", i)));
    }
    let graph = YcgGraph {
        metadata: meta(),
        definitions: vec![node("a", "A", ScipSymbolKind::Class, None)],
        references,
    };
    let e = validate_graph_integrity(&graph).unwrap_err();
    match &e {
        ValidationError::ReferentialIntegrityViolation { count, details } => {
            assert_eq!(*count, 7);
            assert_eq!(
                details,
                "  - Edge from 'x' to 'a': source ID not found in definitions\n  - Edge from 'x' to 'y': both IDs not found in definitions\n  - Edge from 'a' to 'y': target ID not found in definitions\n  - Edge from 'a' to 't0': target ID not found in definitions\n  - Edge from 'a' to 't1': target ID not found in definitions\n  ... and 2 more\n"
            );
        }
        other => panic!("expected violations, got {:?}", other),
    }
    assert!(e.to_string().starts_with("Graph referential integrity violation: 7 invalid edge(s) found.\n  - Edge"));
}

#[test]
fn integrity_of_the_adjacency_forms() {
    let mut adjacency = AdjacencyGraph::new();
    adjacency.add_edge(&edge("b", "a"));
    adjacency.add_edge(&edge("q", "a"));
    let optimized = YcgGraphOptimized {
        metadata: meta(),
        definitions: vec![
            node("a", "A", ScipSymbolKind::Class, None),
            node("b", "B", ScipSymbolKind::Class, None),
        ],
        adjacency: adjacency.clone(),
    };
    match validate_graph_integrity_optimized(&optimized) {
        Err(ValidationError::ReferentialIntegrityViolation { count, details }) => {
            assert_eq!(count, 1);
            assert_eq!(details, "  - Edge from 'q' to 'a': source ID not found in definitions\n");
        }
        other => panic!("expected one violation, got {:?}", other),
    }
    let encoded = YcgGraphAdHoc {
        metadata: meta(),
        definitions: vec!["a|A|class".to_string(), "b|B|class".to_string(), "q|Q".to_string()],
        adjacency: adjacency.clone(),
    };
    assert!(validate_graph_integrity_adhoc(&encoded).is_ok());
    let mut piped = AdjacencyGraph::new();
    piped.add_edge(&edge("weird|id", "a\\"));
    let encoded = YcgGraphAdHoc {
        metadata: meta(),
        definitions: vec![r"weird\|id|n|class".to_string(), "a\\".to_string()],
        adjacency: piped,
    };
    assert!(validate_graph_integrity_adhoc(&encoded).is_ok());
}

// ---- configuration -----------------------------------------------------

fn file_config() -> YcgConfigFile {
    YcgConfigFile {
        output: OutputConfig {
            format: Some("AdHoc".to_string()),
            compact: Some(true),
            ignore_framework_noise: None,
        },
        ignore: IgnoreConfig {
            use_gitignore: Some(false),
            custom_patterns: Some(vec!["**/dist/**".to_string()]),
        },
        includes: vec!["src/**".to_string()],
    }
}

#[test]
fn merging_defaults() {
    let m = ConfigLoader::merge_with_cli(None, None, None, None, vec![], vec![], false).unwrap();
    assert!(!m.compact);
    assert_eq!(m.output_format, OutputFormat::Yaml);
    assert!(!m.ignore_framework_noise);
    assert!(m.file_filter.include_patterns.is_empty());
    assert!(m.file_filter.exclude_patterns.is_empty());
    assert!(m.file_filter.use_gitignore);
    let d = MergedConfig::default();
    assert!(d.file_filter.use_gitignore);
    assert_eq!(OutputFormat::default(), OutputFormat::Yaml);
    assert!(!FileFilterConfig::default().use_gitignore);
    assert!(OutputConfig::default().format.is_none());
    assert!(IgnoreConfig::default().custom_patterns.is_none());
}

#[test]
fn merging_file_and_command_line() {
    let m = ConfigLoader::merge_with_cli(Some(file_config()), None, None, None, vec![], vec![], false)
        .unwrap();
    assert!(m.compact);
    assert_eq!(m.output_format, OutputFormat::AdHoc);
    assert!(!m.ignore_framework_noise);
    assert_eq!(m.file_filter.include_patterns, vec!["src/**"]);
    assert_eq!(m.file_filter.exclude_patterns, vec!["**/dist/**"]);
    assert!(!m.file_filter.use_gitignore);

    let m = ConfigLoader::merge_with_cli(
        Some(file_config()),
        Some(false),
        Some("YAML".to_string()),
        Some(true),
        vec!["lib/**".to_string()],
        vec!["x".to_string(), "y".to_string()],
        true,
    )
    .unwrap();
    assert!(!m.compact);
    assert_eq!(m.output_format, OutputFormat::Yaml);
    assert!(m.ignore_framework_noise);
    assert_eq!(m.file_filter.include_patterns, vec!["lib/**"]);
    assert_eq!(m.file_filter.exclude_patterns, vec!["x", "y"]);
    assert!(!m.file_filter.use_gitignore);

    let mut gitignore_on = file_config();
    gitignore_on.ignore.use_gitignore = Some(true);
    let m = ConfigLoader::merge_with_cli(Some(gitignore_on), None, None, None, vec![], vec![], true)
        .unwrap();
    assert!(!m.file_filter.use_gitignore);
}

#[test]
fn merging_rejects_unknown_formats() {
    let e = ConfigLoader::merge_with_cli(None, None, Some("xml".to_string()), None, vec![], vec![], false)
        .unwrap_err();
    assert_eq!(e.to_string(), "Invalid output format: 'xml'. Valid options are: yaml, adhoc");
    let mut bad_file = file_config();
    bad_file.output.format = Some("toml".to_string());
    let e = ConfigLoader::merge_with_cli(
        Some(bad_file),
        None,
        Some("xml".to_string()),
        None,
        vec![],
        vec![],
        false,
    )
    .unwrap_err();
    match e {
        ConfigError::InvalidOutputFormat { provided, valid } => {
            assert_eq!(provided, "toml");
            assert_eq!(valid, vec!["yaml", "adhoc"]);
        }
        other => panic!("expected an invalid format, got {:?}", other),
    }
    assert_eq!(ConfigLoader::parse_output_format("adHOC").unwrap(), OutputFormat::AdHoc);
    assert!(ConfigLoader::parse_output_format("").is_err());
    assert!(ConfigLoader::parse_output_format("yaml ").is_err());
}

#[test]
fn validation_finds_the_first_conflict() {
    let mut m = MergedConfig::default();
    assert!(ConfigLoader::validate(&m).is_ok());
    m.file_filter.include_patterns = vec!["a".to_string(), "b".to_string(), "c".to_string()];
    m.file_filter.exclude_patterns = vec!["c".to_string(), "x".to_string(), "b".to_string()];
    match ConfigLoader::validate(&m) {
        Err(e) => {
            assert!(matches!(&e, ConfigError::ConflictingPatterns { pattern } if pattern == "b"));
            assert_eq!(
                e.to_string(),
                "Conflicting patterns: 'b' appears in both include and exclude patterns"
            );
        }
        Ok(_) => panic!("b is included and excluded"),
    }
    m.file_filter.exclude_patterns = vec!["d".to_string()];
    assert!(ConfigLoader::validate(&m).is_ok());
}

// ---- errors ------------------------------------------------------------

#[test]
fn messages_of_the_errors() {
    let s = |x: &str| x.to_string();
    assert_eq!(
        ConfigError::MalformedJson { path: s("c.json"), line: 5, column: 12, message: s("expected comma") }
            .to_string(),
        "Malformed JSON in config file 'c.json' at line 5, column 12: expected comma"
    );
    assert_eq!(
        ConfigError::conflicting_flags_with_suggestion(s("--a"), s("--b"), s("Pick one."))
            .to_string(),
        "Conflicting configuration: --a conflicts with --b. Pick one."
    );
    assert_eq!(
        ConfigError::InvalidGlobPattern { pattern: s("["), reason: s("open") }.to_string(),
        "Invalid glob pattern '[': open"
    );
    assert_eq!(
        ConfigError::ConfigFileNotFound { path: s("p") }.to_string(),
        "Configuration file not found at 'p'. Using default settings."
    );
    assert_eq!(
        ConfigError::ConfigFileReadError { path: s("p"), reason: s("denied") }.to_string(),
        "Failed to read configuration file 'p': denied"
    );
    assert_eq!(
        ConfigError::MissingRequiredField { field: s("f"), path: s("p") }.to_string(),
        "Missing required configuration field: 'f' in 'p'"
    );
    assert_eq!(
        ConfigError::InvalidValue { field: s("f"), value: s("v"), reason: s("Why.") }.to_string(),
        "Invalid value for 'f': v. Why."
    );
    assert_eq!(
        ParseError::scip_not_found(s("index.scip")).to_string(),
        "SCIP index file not found: 'index.scip'. Please run 'scip-typescript index' or 'rust-analyzer scip .' first."
    );
    assert_eq!(
        ParseError::scip_decode_error(s("i"), s("bad tag")).to_string(),
        "Failed to decode SCIP index from 'i': bad tag. The file may be corrupted."
    );
    assert_eq!(
        ParseError::InvalidScipStructure { path: s("i"), reason: s("r") }.to_string(),
        "Invalid SCIP document structure in 'i': r"
    );
    assert_eq!(
        ParseError::SourceFileNotFound { file: s("f"), project_root: s("root") }.to_string(),
        "Source file 'f' referenced in SCIP index not found in project root 'root'"
    );
    assert_eq!(
        ParseError::SourceFileReadError { path: s("f"), reason: s("r") }.to_string(),
        "Failed to read source file 'f': r"
    );
    assert_eq!(
        ValidationError::invalid_yaml(s("tabs")).to_string(),
        "Invalid YAML output: tabs. The output does not conform to YAML 1.2 specification."
    );
    assert_eq!(
        ValidationError::invalid_adhoc_format(10, s("expected 3 fields, got 2")).to_string(),
        "Invalid ad-hoc format at definition 10: expected 3 fields, got 2. Expected format: 'id|name|type'"
    );
    assert_eq!(
        ValidationError::InvalidSymbolDefinition { index: 0, reason: s("r") }.to_string(),
        "Invalid symbol definition at index 0: r"
    );
    assert_eq!(
        ValidationError::referential_integrity(vec![]).to_string(),
        "Graph referential integrity violation: 0 invalid edge(s) found.\n"
    );
    assert_eq!(
        FileFilterError::invalid_pattern(s("["), s("open")).to_string(),
        "Invalid glob pattern '[': open. See https://docs.rs/glob for pattern syntax."
    );
    assert_eq!(
        FileFilterError::GitignoreParseError { path: s("p"), reason: s("r") }.to_string(),
        "Warning: Failed to parse .gitignore file at 'p': r. Continuing without gitignore filtering."
    );
    assert_eq!(
        FileFilterError::no_files_matched(vec![s("a"), s("b")]).to_string(),
        "No files match the specified include patterns: a, b. Check your patterns and project structure."
    );
    assert_eq!(
        FileFilterError::no_files_matched(vec![]).to_string(),
        "No files match the specified include patterns: . Check your patterns and project structure."
    );
    assert_eq!(
        FileFilterError::AllFilesExcluded { include_patterns: vec![s("a")], exclude_patterns: vec![s("b"), s("c")] }
            .to_string(),
        "All files were excluded by filters. Include patterns: [a], Exclude patterns: [b, c]"
    );
    assert_eq!(
        YcgError::from(ParseError::scip_not_found(s("i"))).to_string(),
        "SCIP parsing error: SCIP index file not found: 'i'. Please run 'scip-typescript index' or 'rust-analyzer scip .' first."
    );
    assert_eq!(
        YcgError::from(ValidationError::EmptyGraph).to_string(),
        "Validation error: Generated graph is empty. This may be due to overly restrictive filters. Try adjusting your include/exclude patterns."
    );
    assert_eq!(
        YcgError::from(FileFilterError::invalid_pattern(s("["), s("open"))).to_string(),
        "File filtering error: Invalid glob pattern '[': open. See https://docs.rs/glob for pattern syntax."
    );
    assert_eq!(YcgError::FileSystem(s("gone")).to_string(), "File system error: gone");
    assert_eq!(YcgError::Other(s("anything")).to_string(), "anything");
    assert_eq!(
        ValidationError::invalid_adhoc_format(usize::MAX, s("r")).to_string(),
        format!("Invalid ad-hoc format at definition {}: r. Expected format: 'id|name|type'", usize::MAX)
    );
}

// ---- project -----------------------------------------------------------

#[test]
fn project_language_and_indexer() {
    assert_eq!(detect_project_language(true, true, true), Some(ProjectLanguage::Rust));
    assert_eq!(detect_project_language(true, false, false), Some(ProjectLanguage::Rust));
    assert_eq!(detect_project_language(false, true, false), Some(ProjectLanguage::TypeScript));
    assert_eq!(detect_project_language(false, false, true), Some(ProjectLanguage::TypeScript));
    assert_eq!(detect_project_language(false, false, false), None);
    assert_eq!(ProjectLanguage::Rust.name(), "rust");
    assert_eq!(ProjectLanguage::TypeScript.name(), "typescript");
    assert_eq!(ProjectLanguage::Rust.indexer(), Indexer::RustAnalyzer);
    assert_eq!(ProjectLanguage::TypeScript.indexer(), Indexer::ScipTypescript);
    assert_eq!(AdHocGranularity::Default.to_str(), "default");
    assert_eq!(AdHocGranularity::InlineSignatures.to_str(), "signatures");
    assert_eq!(AdHocGranularity::InlineLogic.to_str(), "logic");
}

#[test]
fn errors_of_outside_parsers_are_carried_over() {
    let err = serde_json::from_str::<serde_json::Value>("{\n  \"a\": }").unwrap_err();
    let expected = err.to_string();
    match ConfigError::malformed_json_with_path("c.json".to_string(), err) {
        ConfigError::MalformedJson { path, line, column, message } => {
            assert_eq!(path, "c.json");
            assert_eq!(line, 2);
            assert_eq!(column, 8);
            assert_eq!(message, "expected value at line 2 column 8");
            assert_eq!(message, expected);
        }
        other => panic!("expected malformed JSON, got {:?}", other),
    }
    let err = serde_json::from_str::<serde_json::Value>("[").unwrap_err();
    let e = ConfigError::from_json_error(err);
    assert!(e.to_string().starts_with("Malformed JSON in config file 'unknown' at line 1, column 1: "));
    let err = glob::Pattern::new("***").unwrap_err();
    match FileFilterError::from_pattern_error(err) {
        FileFilterError::InvalidPattern { pattern, reason } => {
            assert_eq!(pattern, "unknown");
            assert_eq!(
                reason,
                "Pattern syntax error near position 2: wildcards are either regular `*` or recursive `**`"
            );
        }
        other => panic!("expected an invalid pattern, got {:?}", other),
    }
}

#[test]
fn trimming_takes_exactly_the_white_space_characters() {
    let mut code = 0u32;
    while code <= 0x3100 {
        if let Some(c) = char::from_u32(code) {
            let padded = format!("{}User{}", c, c);
            let trimmed = TypeAbbreviator::abbreviate(&padded);
            if c.is_whitespace() {
                assert_eq!(trimmed, "User", "U+{:04X}", code);
            } else if c != '?' && c != '<' {
                assert_eq!(trimmed, padded, "U+{:04X}", code);
            }
        }
        code += 1;
    }
    for c in ['\u{feff}', '\u{e000}', '\u{10000}', '\u{10ffff}', '\u{180e}', '\u{200b}'] {
        let padded = format!("{}User{}", c, c);
        assert_eq!(TypeAbbreviator::abbreviate(&padded), padded);
    }
}

#[test]
fn a_written_graph_reads_back_with_every_edge_as_often_as_given() {
    let typed = |from: &str, to: &str, edge_type: EdgeType| ReferenceEdge {
        from: from.to_string(),
        to: to.to_string(),
        edge_type,
    };
    let references = vec![
        typed("b", "z", EdgeType::Imports),
        edge("b", "a"),
        typed("a", "b", EdgeType::References),
        edge("b", "a"),
        edge("a", "b"),
        typed("b", "z", EdgeType::Imports),
        edge("b", "a"),
        edge("", ""),
    ];
    let graph = YcgGraph {
        metadata: meta(),
        definitions: vec![
            node("a|x", "A\\|", ScipSymbolKind::Class, Some("sig")),
            node("b", "", ScipSymbolKind::Method, None),
        ],
        references,
    };
    let back = AdHocParser::parse_graph(&AdHocSerializer::serialize_graph(&graph)).unwrap();
    assert_eq!(back.metadata.name, "test");
    assert_eq!(back.definitions.len(), 2);
    assert_eq!(back.definitions[0].id, "a|x");
    assert_eq!(back.definitions[0].name, "A\\|");
    assert_eq!(back.definitions[0].kind, ScipSymbolKind::Class);
    assert_eq!(back.definitions[0].signature, None);
    assert_eq!(back.definitions[1].name, "");
    let got: Vec<(String, String, EdgeType)> =
        back.references.iter().map(|e| (e.from.clone(), e.to.clone(), e.edge_type)).collect();
    let t = |f: &str, to: &str, ty| (f.to_string(), to.to_string(), ty);
    assert_eq!(
        got,
        vec![
            t("", "", EdgeType::Calls),
            t("a", "b", EdgeType::Calls),
            t("a", "b", EdgeType::References),
            t("b", "a", EdgeType::Calls),
            t("b", "a", EdgeType::Calls),
            t("b", "a", EdgeType::Calls),
            t("b", "z", EdgeType::Imports),
            t("b", "z", EdgeType::Imports),
        ]
    );
}

#[test]
fn every_order_of_the_edges_gives_one_adjacency() {
    let typed = |from: &str, to: &str, edge_type: EdgeType| ReferenceEdge {
        from: from.to_string(),
        to: to.to_string(),
        edge_type,
    };
    let edges = [
        typed("b", "y", EdgeType::Calls),
        typed("a", "q", EdgeType::References),
        typed("b", "x", EdgeType::Calls),
        typed("b", "y", EdgeType::Imports),
        typed("b", "y", EdgeType::Calls),
    ];
    let listing = |order: &[usize]| {
        let list: Vec<ReferenceEdge> = order
            .iter()
            .map(|&i| ReferenceEdge {
                from: edges[i].from.clone(),
                to: edges[i].to.clone(),
                edge_type: edges[i].edge_type,
            })
            .collect();
        format!("{:?}", AdjacencyGraph::from_edges(&list))
    };
    let first = listing(&[0, 1, 2, 3, 4]);
    let mut order = [0usize, 1, 2, 3, 4];
    let mut count = 0;
    // every permutation of five, by the counting method of Heap
    let mut c = [0usize; 5];
    let mut i = 0;
    assert_eq!(listing(&order), first);
    while i < 5 {
        if c[i] < i {
            if i % 2 == 0 {
                order.swap(0, i);
            } else {
                order.swap(c[i], i);
            }
            assert_eq!(listing(&order), first, "{:?}", order);
            count += 1;
            c[i] += 1;
            i = 0;
        } else {
            c[i] = 0;
            i += 1;
        }
    }
    assert_eq!(count, 119);
}
