use bingraph::errors::BingraphError;
use bingraph::node::{BinNode, NodeType};
use bingraph::parse::ParsedObject;

/// A minimal but well-formed 64-bit little-endian ELF header with no
/// program headers and no section headers.
fn elf_header(e_type: u16) -> Vec<u8> {
    let mut b = vec![0u8; 64];
    b[0] = 0x7f;
    b[1] = b'E';
    b[2] = b'L';
    b[3] = b'F';
    b[4] = 2; // 64-bit
    b[5] = 1; // little endian
    b[6] = 1; // ELF version
    b[16] = (e_type & 0xff) as u8;
    b[17] = (e_type >> 8) as u8;
    b[18] = 0x3e; // x86-64
    b[20] = 1; // file version
    b[52] = 64; // e_ehsize
    b
}

#[test]
fn executable_elf_bytes_become_a_binary_node() {
    let bytes = elf_header(2); // ET_EXEC
    let n = BinNode::from_bytes("prog".to_string(), "/bin/prog".to_string(), &bytes).unwrap();
    assert_eq!(n.name(), "prog");
    assert_eq!(n.absolute_path(), "/bin/prog");
    assert_eq!(n.node_type(), NodeType::ELFBinary);
    assert!(n.get_dependencies().is_empty());
    assert_eq!(n.get_in_degree(), 0);
    assert_eq!(n.get_out_degree(), 0);
}

#[test]
fn shared_object_elf_bytes_become_a_library_node() {
    let bytes = elf_header(3); // ET_DYN
    let n = BinNode::from_bytes("libx.so".to_string(), "/lib/libx.so".to_string(), &bytes)
        .unwrap();
    assert_eq!(n.node_type(), NodeType::ELFLibrary);
}

#[test]
fn undecodable_bytes_report_the_parser_error() {
    let bytes: Vec<u8> = vec![];
    let e = BinNode::from_bytes("x".to_string(), "/x".to_string(), &bytes).unwrap_err();
    assert!(matches!(e, BingraphError::GoblinError(_)));
    assert!(e.message().starts_with("goblin: "));
}

#[test]
fn unrecognized_magic_reports_unknown_file_type() {
    let bytes = vec![0x41u8; 64];
    let e = BinNode::from_bytes("blob".to_string(), "/tmp/blob".to_string(), &bytes)
        .unwrap_err();
    assert!(matches!(e, BingraphError::GeneralError(_)));
    assert_eq!(e.message(), "\"/tmp/blob\" is of unknown file type");
}

#[test]
fn parsed_elf_carries_its_libraries() {
    let parsed = ParsedObject::Elf {
        is_lib: true,
        libraries: vec!["libc.so.6".to_string(), "libm.so.6".to_string()],
    };
    let n = BinNode::from_parsed("liby.so".to_string(), "/lib/liby.so".to_string(), parsed)
        .unwrap();
    assert_eq!(n.node_type(), NodeType::ELFLibrary);
    assert_eq!(
        n.get_dependencies(),
        &vec!["libc.so.6".to_string(), "libm.so.6".to_string()]
    );
}

#[test]
fn parsed_pe_becomes_a_portable_executable_node() {
    let parsed = ParsedObject::Pe { libraries: vec!["KERNEL32.dll".to_string()] };
    let n = BinNode::from_parsed("app.exe".to_string(), "/pe/app.exe".to_string(), parsed)
        .unwrap();
    assert_eq!(n.node_type(), NodeType::PortableExecutable);
    assert_eq!(n.get_dependencies(), &vec!["KERNEL32.dll".to_string()]);
}

#[test]
fn parsed_other_is_rejected_with_the_path_in_the_message() {
    let parsed = ParsedObject::Other;
    let e = BinNode::from_parsed("a.out".to_string(), "/tmp/a.out".to_string(), parsed)
        .unwrap_err();
    assert_eq!(e.message(), "\"/tmp/a.out\" is of unknown file type");
}

#[test]
fn corrupt_file_is_skipped_and_the_rest_processed() {
    // One unreadable candidate among good ones: it yields no node, the
    // others build a complete graph, and nothing fails.
    let good_a = elf_header(2);
    let corrupt = vec![0xffu8; 5];
    let good_b = elf_header(3);
    let mut nodes = Vec::new();
    for (name, path, bytes) in [
        ("A", "/bin/A", &good_a),
        ("broken", "/bin/broken", &corrupt),
        ("B", "/lib/B", &good_b),
    ] {
        if let Ok(n) = BinNode::from_bytes(name.to_string(), path.to_string(), bytes) {
            nodes.push(n);
        }
    }
    let g = bingraph::graph::BinGraph::new(nodes);
    assert_eq!(g.num_nodes(), 2);
    assert_eq!(g.nodes()[0].name(), "A");
    assert_eq!(g.nodes()[1].name(), "B");
}
