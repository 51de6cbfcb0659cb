use toolver::idiomatic::{candidate_backends, IdiomaticVersionFile};
use toolver::request::{
    classify_specifier, BackendArg, BackendResolution, RequestError, RequestKind, ToolRequest,
    ToolRequestSet, ToolSource,
};

fn backend(short: &str) -> BackendArg {
    BackendArg::new(short.to_string(), None, BackendResolution::new(false))
}

#[test]
fn test_idiomatic_parse_error_propagation() {
    let path = ".tool-versions".to_string();
    let outcomes = vec![
        (backend("node"), Err("mock error".to_string())),
        (backend("python"), Ok(vec!["3.10.0".to_string()])),
    ];
    let result = IdiomaticVersionFile::parse(path, outcomes);
    assert!(result.is_ok(), "Should not propagate error from backend1");
    let file = result.unwrap();
    let trs = file.to_tool_request_set();
    let tools = trs.entries();
    assert_eq!(tools.len(), 1);
    let (ba, versions, _) = &tools[0];
    assert_eq!(ba.short, "python");
    assert_eq!(versions[0].version(), "3.10.0");
}

#[test]
fn failing_backend_among_several_contributes_nothing() {
    let outcomes = vec![
        (backend("node"), Ok(vec!["20".to_string(), "18".to_string()])),
        (backend("ruby"), Err("cannot parse".to_string())),
        (backend("python"), Ok(vec!["3.12".to_string()])),
    ];
    let file = IdiomaticVersionFile::parse(".tool-versions".to_string(), outcomes).unwrap();
    let entries = file.to_tool_request_set().entries();
    let shorts: Vec<String> = entries.iter().map(|e| e.0.short.clone()).collect();
    assert_eq!(shorts, vec!["node".to_string(), "python".to_string()]);
    let node: Vec<String> = entries[0].1.iter().map(|t| t.version()).collect();
    assert_eq!(node, vec!["20".to_string(), "18".to_string()]);
    assert!(entries.iter().all(|e| e.0.short != "ruby"));
}

#[test]
fn no_candidate_backends_gives_empty_set() {
    let file = IdiomaticVersionFile::parse("global.json".to_string(), vec![]).unwrap();
    assert!(file.to_tool_request_set().is_empty());
    assert_eq!(file.get_path(), "global.json");
}

#[test]
fn malformed_version_fails_aggregation() {
    let outcomes = vec![
        (backend("node"), Ok(vec!["bogus:20".to_string()])),
        (backend("python"), Ok(vec!["3.12".to_string()])),
    ];
    let r = IdiomaticVersionFile::parse("x".to_string(), outcomes);
    assert_eq!(r.unwrap_err(), RequestError::UnknownKind);
    let outcomes = vec![(backend("node"), Ok(vec!["".to_string()]))];
    assert_eq!(IdiomaticVersionFile::parse("x".to_string(), outcomes).unwrap_err(), RequestError::Empty);
}

#[test]
fn source_is_the_idiomatic_file() {
    let file = IdiomaticVersionFile::init("/p/.nvmrc".to_string());
    assert!(file.to_tool_request_set().is_empty());
    match file.source() {
        ToolSource::IdiomaticVersionFile(p) => assert_eq!(p, "/p/.nvmrc"),
        _ => panic!("wrong source"),
    }
}

#[test]
fn request_set_round_trip_keeps_order() {
    let src = ToolSource::Argument;
    let mut set = ToolRequestSet::new();
    let specs = [("node", "20"), ("python", "3.11"), ("node", "18"), ("go", "1.22"), ("python", "3.12")];
    for (b, v) in specs.iter() {
        let tr = ToolRequest::new(backend(b), v, ToolSource::Argument).unwrap();
        set.add_version(tr, &src);
    }
    let entries = set.entries();
    assert_eq!(set.len(), 3);
    let got: Vec<(String, Vec<String>)> = entries
        .iter()
        .map(|(b, vs, _)| (b.short.clone(), vs.iter().map(|t| t.version()).collect()))
        .collect();
    assert_eq!(
        got,
        vec![
            ("node".to_string(), vec!["20".to_string(), "18".to_string()]),
            ("python".to_string(), vec!["3.11".to_string(), "3.12".to_string()]),
            ("go".to_string(), vec!["1.22".to_string()]),
        ]
    );
    assert!(entries.iter().all(|(_, _, s)| matches!(s, ToolSource::Argument)));
}

#[test]
fn first_source_of_a_backend_is_kept() {
    let mut set = ToolRequestSet::new();
    let a = ToolSource::ConfigFile("/a/tools.toml".to_string());
    let b = ToolSource::Environment("TOOL_NODE_VERSION".to_string());
    set.add_version(ToolRequest::new(backend("node"), "20", a.clone()).unwrap(), &a);
    set.add_version(ToolRequest::new(backend("node"), "22", b.clone()).unwrap(), &b);
    let entries = set.entries();
    assert_eq!(entries.len(), 1);
    assert!(matches!(&entries[0].2, ToolSource::ConfigFile(p) if p == "/a/tools.toml"));
    assert!(matches!(entries[0].1[1].source(), ToolSource::Environment(k) if k == "TOOL_NODE_VERSION"));
}

#[test]
fn specifier_grammar() {
    assert_eq!(classify_specifier("20.1.0"), Ok(RequestKind::Version));
    assert_eq!(classify_specifier("system"), Ok(RequestKind::System));
    assert_eq!(classify_specifier("prefix:3.1"), Ok(RequestKind::Prefix));
    assert_eq!(classify_specifier("ref:main"), Ok(RequestKind::Ref));
    assert_eq!(classify_specifier("tag:v1"), Ok(RequestKind::Ref));
    assert_eq!(classify_specifier("branch:dev"), Ok(RequestKind::Ref));
    assert_eq!(classify_specifier("rev:abc"), Ok(RequestKind::Ref));
    assert_eq!(classify_specifier("path:/opt/node"), Ok(RequestKind::Path));
    assert_eq!(classify_specifier("sub-1:lts"), Ok(RequestKind::Sub));
    assert_eq!(classify_specifier("weird:1"), Err(RequestError::UnknownKind));
    assert_eq!(classify_specifier(""), Err(RequestError::Empty));
    let tr = ToolRequest::new(backend("node"), "prefix:20", ToolSource::Argument).unwrap();
    assert_eq!(tr.kind(), RequestKind::Prefix);
    assert_eq!(tr.version(), "prefix:20");
    assert_eq!(tr.ba().short, "node");
}

#[test]
fn backend_identity() {
    let a = BackendArg::new("node".to_string(), Some("core".to_string()), BackendResolution::new(true));
    let b = BackendArg::new("node".to_string(), Some("core".to_string()), BackendResolution::new(false));
    let c = BackendArg::new("node".to_string(), None, BackendResolution::new(true));
    assert!(a.same_backend(&b));
    assert!(!a.same_backend(&c));
}

#[test]
fn candidates_match_base_name() {
    let listings = vec![
        (backend("dotnet"), Ok(vec!["global.json".to_string()])),
        (backend("node"), Ok(vec![".nvmrc".to_string(), ".node-version".to_string()])),
        (backend("broken"), Err("no list".to_string())),
        (backend("other"), Ok(vec!["global.json".to_string()])),
    ];
    let c = candidate_backends("/work/app/global.json", &listings);
    let names: Vec<String> = c.iter().map(|b| b.short.clone()).collect();
    assert_eq!(names, vec!["dotnet".to_string(), "other".to_string()]);
    let c = candidate_backends("/work/app/.nvmrc", &listings);
    assert_eq!(c.len(), 1);
    assert!(candidate_backends("/work/README", &listings).is_empty());
}
