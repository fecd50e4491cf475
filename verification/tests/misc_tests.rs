use bingraph::cli::BingraphArgs;
use bingraph::errors::BingraphError;
use bingraph::node::NodeType;
use bingraph::numfmt::u64_to_string;

#[test]
fn search_path_joins_bin_then_lib_with_a_colon() {
    let args = BingraphArgs {
        output: "graph.json".to_string(),
        output_graphviz: "".to_string(),
        bin_path: "/usr/bin:/bin".to_string(),
        lib_path: "/usr/lib:/lib".to_string(),
    };
    assert_eq!(args.search_path(), "/usr/bin:/bin:/usr/lib:/lib");
}

#[test]
fn search_path_keeps_empty_parts() {
    let args = BingraphArgs {
        output: "o".to_string(),
        output_graphviz: "g".to_string(),
        bin_path: "".to_string(),
        lib_path: "/lib".to_string(),
    };
    assert_eq!(args.search_path(), ":/lib");
}

#[test]
fn node_type_tags_match_the_report_schema() {
    assert_eq!(NodeType::ELFBinary.tag(), "elf_binary");
    assert_eq!(NodeType::ELFLibrary.tag(), "elf_library");
    assert_eq!(NodeType::PortableExecutable.tag(), "pe");
    assert_eq!(NodeType::InterpretedExecutable.tag(), "interp");
}

#[test]
fn general_error_message_is_the_carried_string() {
    let e = BingraphError::from("something broke".to_string());
    assert!(matches!(e, BingraphError::GeneralError(_)));
    assert_eq!(e.message(), "something broke");
}

#[test]
fn io_error_message_is_prefixed() {
    let io = std::io::Error::new(std::io::ErrorKind::NotFound, "no such file");
    let e = BingraphError::from(io);
    assert!(matches!(e, BingraphError::IOError(_)));
    assert!(e.message().starts_with("io: "));
    assert!(e.message().contains("no such file"));
}

#[test]
fn decimal_rendering_is_exact() {
    assert_eq!(u64_to_string(0), "0");
    assert_eq!(u64_to_string(7), "7");
    assert_eq!(u64_to_string(10), "10");
    assert_eq!(u64_to_string(105), "105");
    assert_eq!(u64_to_string(123456789), "123456789");
    assert_eq!(u64_to_string(u64::MAX), format!("{}", u64::MAX));
}
