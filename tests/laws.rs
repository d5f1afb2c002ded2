use lawa::assemble::assemble;
use lawa::parse::Parser;

#[test]
fn assembling_twice_gives_identical_bytes() {
    let source = "(export main) (segment rx (block main (jsh later) \"s\") (block later (addi r1 r1 ext)))";
    let first = assemble(source).unwrap().serialize().unwrap();
    let second = assemble(source).unwrap().serialize().unwrap();
    assert_eq!(first, second);
}

#[test]
fn qualified_names_are_unique() {
    let program = Parser::new("(segment rx (block a (block b)) (block b (block a)))").parse().unwrap();
    let table = program.symbol_table().unwrap();
    let names: Vec<String> = table.iter().map(|e| e.name.iter().collect()).collect();
    assert_eq!(names, vec!["a", "a.b", "b", "b.a"]);
}

#[test]
fn relocations_point_into_the_file() {
    let poki = assemble("(segment rx (jsh end) (jsh ext) (addi r1 r0 mid) (block mid 1) (block end))").unwrap();
    for segment in &poki.segments {
        for r in &segment.relocation_table {
            if r.segment_index == 0xFFFF {
                assert!((r.segment_offset as usize) < poki.unresolved_table.len());
            } else {
                assert!(r.segment_index < 8);
                assert!(r.segment_offset as usize <= poki.segments[r.segment_index as usize].contents.len());
            }
        }
    }
    assert_eq!(poki.segments[5].relocation_table[0].segment_offset, 5);
    assert_eq!(poki.segments[5].contents.len(), 5);
}
