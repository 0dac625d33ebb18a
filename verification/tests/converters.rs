use reactor::codegen::{generate, msg_converter};
use reactor::converters::{lex, MsgConverters, ParseError, ParseErrorKind, Tok, UnionDef};

fn parse(text: &str) -> Result<MsgConverters, ParseError> {
    MsgConverters::parse_text(text)
}

fn strings(v: &[&str]) -> Vec<String> {
    v.iter().map(|s| s.to_string()).collect()
}

fn err_at(text: &str) -> (usize, ParseErrorKind) {
    let e = parse(text).unwrap_err();
    (e.pos, e.kind)
}

#[test]
fn unions_section_is_read_in_order() {
    let m = parse(
        "Unions: [
            ServerIn = ReadOut, WriteOut;
            ServerOut = ReadAck, WriteAck;
        ];",
    )
    .unwrap();
    assert_eq!(m.unions.len(), 2);
    assert_eq!(m.unions[0].name, "ServerIn");
    assert_eq!(m.unions[0].variants, strings(&["ReadOut", "WriteOut"]));
    assert_eq!(m.unions[1].name, "ServerOut");
    assert_eq!(m.unions[1].variants, strings(&["ReadAck", "WriteAck"]));
    assert!(m.adapters.is_empty());
    assert!(m.decoders.is_empty());
}

#[test]
fn decoders_section_is_read_in_order() {
    let m = parse(
        "Decoders: [
            server_decoder can decode ReadOut, WriteOut to ServerIn;
            reader_decoder can decode ReadAck, ServerOut to ReaderIn;
            writer_decoder can decode WriteAck, ServerOut to WriterIn;
        ];",
    )
    .unwrap();
    assert_eq!(m.decoders.len(), 3);
    assert_eq!(m.decoders[0].decoder_name, "server_decoder");
    assert_eq!(m.decoders[0].inputs, strings(&["ReadOut", "WriteOut"]));
    assert_eq!(m.decoders[0].output, "ServerIn");
    assert_eq!(m.decoders[2].decoder_name, "writer_decoder");
    assert_eq!(m.decoders[2].output, "WriterIn");
}

#[test]
fn adapters_and_repeated_sections_are_merged_by_kind() {
    let m = parse(
        "Adapters: [ A from B via C; ];
         Unions: [ U = X; ];
         Adapters: [ D from E via F; ];
         Unions: [];",
    )
    .unwrap();
    assert_eq!(m.adapters.len(), 2);
    assert_eq!(
        (m.adapters[0].target.as_str(), m.adapters[0].source.as_str(), m.adapters[0].via.as_str()),
        ("A", "B", "C")
    );
    assert_eq!(
        (m.adapters[1].target.as_str(), m.adapters[1].source.as_str(), m.adapters[1].via.as_str()),
        ("D", "E", "F")
    );
    assert_eq!(m.unions.len(), 1);
    assert_eq!(m.unions[0].variants, strings(&["X"]));
}

#[test]
fn empty_text_declares_nothing() {
    let m = parse("  // nothing here\n").unwrap();
    assert!(m.unions.is_empty() && m.adapters.is_empty() && m.decoders.is_empty());
}

#[test]
fn comments_separate_tokens() {
    let m = parse("Unions: [ // the inputs\n In = A,// first\nB; ];").unwrap();
    assert_eq!(m.unions[0].variants, strings(&["A", "B"]));
}

#[test]
fn block_comments_separate_tokens_and_nest() {
    let m = parse("Unions: [ /* the /* nested */ inputs */ In = A,/**/B/***/; ];").unwrap();
    assert_eq!(m.unions[0].variants, strings(&["A", "B"]));
    assert_eq!(err_at("Unions: [ /* open /* */ ];"), (10, ParseErrorKind::UnexpectedChar));
    assert_eq!(err_at("/** doc */ Unions: [];"), (0, ParseErrorKind::UnexpectedChar));
    assert_eq!(err_at("/*! doc */ Unions: [];"), (0, ParseErrorKind::UnexpectedChar));
}

#[test]
fn identifiers_may_use_unicode_letters() {
    let m = parse("Unions: [ Café = Größe, 名前; ];").unwrap();
    assert_eq!(m.unions[0].name, "Café");
    assert_eq!(m.unions[0].variants, strings(&["Größe", "名前"]));
    assert_eq!(err_at("Unions: [ A = ·B; ];"), (14, ParseErrorKind::UnexpectedChar));
}

#[test]
fn lexer_reads_identifiers_and_punctuation() {
    let toks = lex("Ab_1:=,;[]  _x").unwrap();
    assert_eq!(toks.len(), 8);
    assert!(matches!(&toks[0], Tok::Ident(s) if s == "Ab_1"));
    assert!(matches!(toks[1], Tok::Colon));
    assert!(matches!(toks[2], Tok::Eq));
    assert!(matches!(toks[3], Tok::Comma));
    assert!(matches!(toks[4], Tok::Semi));
    assert!(matches!(toks[5], Tok::Open));
    assert!(matches!(toks[6], Tok::Close));
    assert!(matches!(&toks[7], Tok::Ident(s) if s == "_x"));
}

#[test]
fn unexpected_characters_are_reported_by_position() {
    assert_eq!(err_at("Unions: [ A = B<u8>; ];"), (15, ParseErrorKind::UnexpectedChar));
    assert_eq!(err_at("/// doc\nUnions: [];"), (0, ParseErrorKind::UnexpectedChar));
    assert_eq!(err_at("Unions: [ 1A = B; ];"), (10, ParseErrorKind::UnexpectedChar));
}

#[test]
fn section_errors() {
    assert_eq!(err_at("Enums: [];"), (0, ParseErrorKind::UnknownSection));
    assert_eq!(err_at("; Unions: [];"), (0, ParseErrorKind::ExpectedSection));
    assert_eq!(err_at("Unions [];"), (1, ParseErrorKind::ExpectedColon));
    assert_eq!(err_at("Unions: A;"), (2, ParseErrorKind::ExpectedOpen));
    assert_eq!(err_at("Unions: []"), (4, ParseErrorKind::ExpectedSemi));
    assert_eq!(err_at("Unions: [ A = B; "), (7, ParseErrorKind::ExpectedIdent));
}

#[test]
fn entry_errors() {
    assert_eq!(err_at("Unions: [ A B; ];"), (4, ParseErrorKind::ExpectedEq));
    assert_eq!(err_at("Unions: [ A = B, ; ];"), (7, ParseErrorKind::ExpectedIdent));
    assert_eq!(err_at("Unions: [ A = B ];"), (6, ParseErrorKind::ExpectedSemi));
    assert_eq!(err_at("Unions: [ fn = B; ];"), (3, ParseErrorKind::ExpectedIdent));
    assert_eq!(err_at("Adapters: [ A to B via C; ];"), (4, ParseErrorKind::ExpectedFrom));
    assert_eq!(err_at("Adapters: [ A from B by C; ];"), (6, ParseErrorKind::ExpectedVia));
    assert_eq!(err_at("Decoders: [ d may decode A to B; ];"), (4, ParseErrorKind::ExpectedCan));
    assert_eq!(err_at("Decoders: [ d can read A to B; ];"), (5, ParseErrorKind::ExpectedDecode));
    assert_eq!(err_at("Decoders: [ d can decode A into B; ];"), (7, ParseErrorKind::ExpectedTo));
}

#[test]
fn a_written_list_of_sections_reads_back() {
    let text = "Unions: [ U = A, B; V = C; ]; Adapters: [ T from S via M; ]; \
                Decoders: [ d can decode to to Out; ];";
    let m = parse(text).unwrap();
    assert_eq!(m.unions.len(), 2);
    assert_eq!(m.unions[1].name, "V");
    assert_eq!(m.adapters.len(), 1);
    assert_eq!(m.decoders[0].inputs, strings(&["to"]));
    assert_eq!(m.decoders[0].output, "Out");
}

#[test]
fn union_code_has_enum_and_conversions() {
    let m = MsgConverters {
        unions: vec![UnionDef { name: "In".to_string(), variants: strings(&["A", "B"]) }],
        adapters: vec![],
        decoders: vec![],
    };
    let code = generate(&m);
    let expected = "#[derive(::core::fmt::Debug, ::core::clone::Clone, ::bincode::Encode, ::bincode::Decode)]\n\
pub enum In {\n    A(A),\n    B(B),\n}\n\
impl ::reactor_actor::HasPriority for In {}\n\
impl ::reactor_actor::Msg for In {}\n\
impl From<A> for In {\n    fn from(v: A) -> Self {\n        In::A(v)\n    }\n}\n\
impl From<B> for In {\n    fn from(v: B) -> Self {\n        In::B(v)\n    }\n}\n\
impl From<In> for A {\n    fn from(e: In) -> Self {\n        if let In::A(inner) = e {\n            inner\n        } else {\n            panic!(\"cannot convert {} to {}\", stringify!(In), stringify!(A));\n        }\n    }\n}\n\
impl From<In> for B {\n    fn from(e: In) -> Self {\n        if let In::B(inner) = e {\n            inner\n        } else {\n            panic!(\"cannot convert {} to {}\", stringify!(In), stringify!(B));\n        }\n    }\n}\n";
    assert_eq!(code, expected);
}

#[test]
fn adapter_code_converts_both_ways() {
    let code = msg_converter("Adapters: [ T from S via M; ];").unwrap();
    let expected = "impl From<S> for T {\n    fn from(value: S) -> Self {\n        let intermediate: M = value.into();\n        intermediate.into()\n    }\n}\n\
impl From<T> for S {\n    fn from(value: T) -> Self {\n        let intermediate: M = value.into();\n        intermediate.into()\n    }\n}\n";
    assert_eq!(code, expected);
}

#[test]
fn decoder_code_serves_each_input_by_name() {
    let code = msg_converter("Decoders: [ dec can decode A to Out; ];").unwrap();
    assert!(code.starts_with(
        "fn dec(name: &str) -> ::std::option::Option<::reactor_actor::DecoderProvider<Out>> {\n"
    ));
    assert!(code.contains("    if name == ::std::any::type_name::<A>() {\n"));
    assert!(code.contains("::reactor_actor::codec::BincodeSubdecoder::<A, Out>::default()"));
    assert!(code.contains("let msg = msg.downcast::<A>().unwrap();"));
    assert!(code.ends_with(
        "    println!(\"Avaialable decoders: {:?}\", vec![::std::any::type_name::<A>().to_string(), ]);\n    None\n}\n"
    ));
}

#[test]
fn generated_code_follows_declaration_kinds() {
    let code = msg_converter(
        "Decoders: [ d can decode A to U; ]; Adapters: [ T from S via M; ]; Unions: [ U = A; ];",
    )
    .unwrap();
    let e = code.find("pub enum U").unwrap();
    let a = code.find("impl From<S> for T").unwrap();
    let d = code.find("fn d(name: &str)").unwrap();
    assert!(e < a && a < d);
}

#[test]
fn converter_errors_pass_through() {
    let e = msg_converter("Unions: [ A = ; ];").unwrap_err();
    assert_eq!((e.pos, e.kind), (5, ParseErrorKind::ExpectedIdent));
}
