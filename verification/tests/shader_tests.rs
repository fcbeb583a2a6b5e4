use gunship::resource::shader::ParseShaderError;
use gunship::resource::shader::ShaderParser;

fn names_and_sources(src: &str) -> Vec<(&str, &str)> {
    ShaderParser::parse(src)
        .unwrap()
        .iter()
        .map(|program| (program.name, program.src))
        .collect()
}

#[test]
fn parses_vertex_and_fragment_programs() {
    let src = "program vert {\n    gl_Position = p;\n}\n\nprogram frag {\n    color = c;\n}\n";
    assert_eq!(
        names_and_sources(src),
        vec![("vert", "gl_Position = p;"), ("frag", "color = c;")],
    );
}

#[test]
fn nested_braces_stay_in_the_program_source() {
    let src = "program vert { if (x) { y(); } } program frag { }";
    assert_eq!(names_and_sources(src), vec![("vert", "if (x) { y(); }"), ("frag", "")]);
}

#[test]
fn only_the_first_two_programs_are_read() {
    let src = "program a {1} program b {2} program c {3}";
    assert_eq!(names_and_sources(src), vec![("a", "1"), ("b", "2")]);
}

#[test]
fn the_second_search_starts_at_the_block_length() {
    // The next search resumes at the length of the first block, counted from the start of the
    // source, which here still lies before the first program.
    let src = "  program v {x} program f {y}";
    assert_eq!(names_and_sources(src), vec![("v", "x"), ("v", "x")]);
}

#[test]
fn missing_programs() {
    assert_eq!(ShaderParser::parse("").unwrap_err(), ParseShaderError::NoVertProgram);
    assert_eq!(ShaderParser::parse("void main() {}").unwrap_err(), ParseShaderError::NoVertProgram);
    // A missing second program is reported the same way.
    assert_eq!(
        ShaderParser::parse("program vert { a }").unwrap_err(),
        ParseShaderError::NoVertProgram,
    );
}

#[test]
fn program_without_a_name() {
    assert_eq!(ShaderParser::parse("program   ").unwrap_err(), ParseShaderError::ProgramMissingName);
}

#[test]
fn program_without_a_block() {
    assert_eq!(
        ShaderParser::parse("program vert main();").unwrap_err(),
        ParseShaderError::MissingOpeningBrace,
    );
}

#[test]
fn unclosed_block() {
    assert_eq!(
        ShaderParser::parse("program vert { { }").unwrap_err(),
        ParseShaderError::UnmatchedBraces,
    );
}
