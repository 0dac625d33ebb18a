//! The Rust code that the message-converter language stands for: for each
//! union an enum with conversions from and into each variant, for each
//! adapter conversions both ways through the intermediate type, and for each
//! decoder a function that finds the sub-decoder of a wire type by its name.
use vstd::prelude::*;
use crate::converters::{
    AdapterDef, AdapterView, ConvertersView, DecoderDef, DecoderView, MsgConverters, ParseError,
    ParseErrorKind, UnionDef, UnionView, adapters_view, decoders_view, flatten, spec_doc, spec_lex,
    strs_view, unions_view,
};

verus! {

/// The variant of enum `name` for message type `v`.
pub open spec fn variant_text(v: Seq<char>) -> Seq<char> {
    "    "@ + v + "("@ + v + "),\n"@
}

/// `From` a variant into the enum.
pub open spec fn from_variant_text(name: Seq<char>, v: Seq<char>) -> Seq<char> {
    "impl From<"@ + v + "> for "@ + name + " {\n    fn from(v: "@ + v + ") -> Self {\n        "@
        + name + "::"@ + v + "(v)\n    }\n}\n"@
}

/// `From` the enum into a variant, which panics on another variant.
pub open spec fn into_variant_text(name: Seq<char>, v: Seq<char>) -> Seq<char> {
    "impl From<"@ + name + "> for "@ + v + " {\n    fn from(e: "@ + name
        + ") -> Self {\n        if let "@ + name + "::"@ + v
        + "(inner) = e {\n            inner\n        } else {\n            panic!(\"cannot convert {} to {}\", stringify!("@
        + name + "), stringify!("@ + v + "));\n        }\n    }\n}\n"@
}

pub open spec fn variants_text(vs: Seq<Seq<char>>) -> Seq<char>
    decreases vs.len(),
{
    if vs.len() == 0 {
        Seq::empty()
    } else {
        variants_text(vs.drop_last()) + variant_text(vs.last())
    }
}

pub open spec fn from_variants_text(name: Seq<char>, vs: Seq<Seq<char>>) -> Seq<char>
    decreases vs.len(),
{
    if vs.len() == 0 {
        Seq::empty()
    } else {
        from_variants_text(name, vs.drop_last()) + from_variant_text(name, vs.last())
    }
}

pub open spec fn into_variants_text(name: Seq<char>, vs: Seq<Seq<char>>) -> Seq<char>
    decreases vs.len(),
{
    if vs.len() == 0 {
        Seq::empty()
    } else {
        into_variants_text(name, vs.drop_last()) + into_variant_text(name, vs.last())
    }
}

pub open spec fn enum_head_text(name: Seq<char>) -> Seq<char> {
    "#[derive(::core::fmt::Debug, ::core::clone::Clone, ::bincode::Encode, ::bincode::Decode)]\npub enum "@
        + name + " {\n"@
}

pub open spec fn enum_tail_text(name: Seq<char>) -> Seq<char> {
    "}\nimpl ::reactor_actor::HasPriority for "@ + name + " {}\nimpl ::reactor_actor::Msg for "@
        + name + " {}\n"@
}

/// The code of a union: the enum, its message traits, and the conversions.
pub open spec fn union_text(u: UnionView) -> Seq<char> {
    enum_head_text(u.name) + variants_text(u.variants) + enum_tail_text(u.name)
        + from_variants_text(u.name, u.variants) + into_variants_text(u.name, u.variants)
}

/// `From` one side into the other through `via`.
pub open spec fn via_text(from: Seq<char>, to: Seq<char>, via: Seq<char>) -> Seq<char> {
    "impl From<"@ + from + "> for "@ + to + " {\n    fn from(value: "@ + from
        + ") -> Self {\n        let intermediate: "@ + via
        + " = value.into();\n        intermediate.into()\n    }\n}\n"@
}

/// The code of an adapter: conversions both ways.
pub open spec fn adapter_text(a: AdapterView) -> Seq<char> {
    via_text(a.source, a.target, a.via) + via_text(a.target, a.source, a.via)
}

/// How the arm for the wire type `input` opens: it compares the name asked
/// for with the name of `input`.
pub open spec fn arm_open_text(input: Seq<char>) -> Seq<char> {
    arm_open_prefix() + input + ">() {\n"@
}

/// The comparison with a type name that opens every arm.
pub open spec fn arm_open_prefix() -> Seq<char> {
    "    if name == ::std::any::type_name::<"@
}

/// The arm of a decoder that serves the wire type `input`.
pub open spec fn arm_text(output: Seq<char>, input: Seq<char>) -> Seq<char> {
    arm_open_text(input)
        + "        fn decoder_cons() -> ::std::boxed::Box<dyn ::tokio_util::codec::Decoder<Item = "@
        + output
        + ", Error = ::std::io::Error> + ::core::marker::Sync + ::core::marker::Send> {\n            ::std::boxed::Box::new(::reactor_actor::codec::BincodeSubdecoder::<"@
        + input + ", "@ + output
        + ">::default())\n        }\n        fn any_to_m(msg: ::std::boxed::Box<dyn ::std::any::Any>) -> "@
        + output + " {\n            let msg = msg.downcast::<"@ + input
        + ">().unwrap();\n            (*msg).into()\n        }\n        return Some(::reactor_actor::DecoderProvider { decoder_cons, any_to_m });\n    }\n"@
}

/// The name of the wire type `input`, as listed when no decoder serves a name.
pub open spec fn listed_text(input: Seq<char>) -> Seq<char> {
    "::std::any::type_name::<"@ + input + ">().to_string(), "@
}

pub open spec fn arms_text(output: Seq<char>, ins: Seq<Seq<char>>) -> Seq<char>
    decreases ins.len(),
{
    if ins.len() == 0 {
        Seq::empty()
    } else {
        arms_text(output, ins.drop_last()) + arm_text(output, ins.last())
    }
}

pub open spec fn listed_all_text(ins: Seq<Seq<char>>) -> Seq<char>
    decreases ins.len(),
{
    if ins.len() == 0 {
        Seq::empty()
    } else {
        listed_all_text(ins.drop_last()) + listed_text(ins.last())
    }
}

pub open spec fn decoder_head_text(d: DecoderView) -> Seq<char> {
    "fn "@ + d.decoder_name
        + "(name: &str) -> ::std::option::Option<::reactor_actor::DecoderProvider<"@ + d.output
        + ">> {\n"@
}

/// The code of a decoder: a function from a wire type's name to the
/// sub-decoder for it, which lists the names it knows when it has none.
pub open spec fn decoder_text(d: DecoderView) -> Seq<char> {
    decoder_head_text(d) + arms_text(d.output, d.inputs) + decoder_fallback_text(d.inputs)
}

/// The end of a decoder: no input matched, so it lists the names it knows
/// and answers `None`.
pub open spec fn decoder_fallback_text(ins: Seq<Seq<char>>) -> Seq<char> {
    "    println!(\"Avaialable decoders: {:?}\", vec!["@ + listed_all_text(ins) + "]);\n    None\n}\n"@
}

pub open spec fn unions_text(us: Seq<UnionView>) -> Seq<char>
    decreases us.len(),
{
    if us.len() == 0 {
        Seq::empty()
    } else {
        unions_text(us.drop_last()) + union_text(us.last())
    }
}

pub open spec fn adapters_text(xs: Seq<AdapterView>) -> Seq<char>
    decreases xs.len(),
{
    if xs.len() == 0 {
        Seq::empty()
    } else {
        adapters_text(xs.drop_last()) + adapter_text(xs.last())
    }
}

pub open spec fn decoders_text(xs: Seq<DecoderView>) -> Seq<char>
    decreases xs.len(),
{
    if xs.len() == 0 {
        Seq::empty()
    } else {
        decoders_text(xs.drop_last()) + decoder_text(xs.last())
    }
}

/// The code of all declarations: the unions, then the adapters, then the
/// decoders, each in order.
pub open spec fn converters_text(m: ConvertersView) -> Seq<char> {
    unions_text(m.unions) + adapters_text(m.adapters) + decoders_text(m.decoders)
}

fn push_variant(out: &mut String, v: &str)
    ensures
        final(out)@ == old(out)@ + variant_text(v@),
{
    let ghost o = out@;
    out.append("    ");
    out.append(v);
    out.append("(");
    out.append(v);
    out.append("),\n");
    assert(out@ =~= o + variant_text(v@));
}

fn push_from_variant(out: &mut String, name: &str, v: &str)
    ensures
        final(out)@ == old(out)@ + from_variant_text(name@, v@),
{
    let ghost o = out@;
    out.append("impl From<");
    out.append(v);
    out.append("> for ");
    out.append(name);
    out.append(" {\n    fn from(v: ");
    out.append(v);
    out.append(") -> Self {\n        ");
    out.append(name);
    out.append("::");
    out.append(v);
    out.append("(v)\n    }\n}\n");
    assert(out@ =~= o + from_variant_text(name@, v@));
}

fn push_into_variant(out: &mut String, name: &str, v: &str)
    ensures
        final(out)@ == old(out)@ + into_variant_text(name@, v@),
{
    let ghost o = out@;
    out.append("impl From<");
    out.append(name);
    out.append("> for ");
    out.append(v);
    out.append(" {\n    fn from(e: ");
    out.append(name);
    out.append(") -> Self {\n        if let ");
    out.append(name);
    out.append("::");
    out.append(v);
    out.append("(inner) = e {\n            inner\n        } else {\n            panic!(\"cannot convert {} to {}\", stringify!(");
    out.append(name);
    out.append("), stringify!(");
    out.append(v);
    out.append("));\n        }\n    }\n}\n");
    assert(out@ =~= o + into_variant_text(name@, v@));
}

fn push_enum_head(out: &mut String, name: &str)
    ensures
        final(out)@ == old(out)@ + enum_head_text(name@),
{
    let ghost o = out@;
    out.append("#[derive(::core::fmt::Debug, ::core::clone::Clone, ::bincode::Encode, ::bincode::Decode)]\npub enum ");
    out.append(name);
    out.append(" {\n");
    assert(out@ =~= o + enum_head_text(name@));
}

fn push_enum_tail(out: &mut String, name: &str)
    ensures
        final(out)@ == old(out)@ + enum_tail_text(name@),
{
    let ghost o = out@;
    out.append("}\nimpl ::reactor_actor::HasPriority for ");
    out.append(name);
    out.append(" {}\nimpl ::reactor_actor::Msg for ");
    out.append(name);
    out.append(" {}\n");
    assert(out@ =~= o + enum_tail_text(name@));
}

fn push_via(out: &mut String, from: &str, to: &str, via: &str)
    ensures
        final(out)@ == old(out)@ + via_text(from@, to@, via@),
{
    let ghost o = out@;
    out.append("impl From<");
    out.append(from);
    out.append("> for ");
    out.append(to);
    out.append(" {\n    fn from(value: ");
    out.append(from);
    out.append(") -> Self {\n        let intermediate: ");
    out.append(via);
    out.append(" = value.into();\n        intermediate.into()\n    }\n}\n");
    assert(out@ =~= o + via_text(from@, to@, via@));
}

fn push_arm(out: &mut String, output: &str, input: &str)
    ensures
        final(out)@ == old(out)@ + arm_text(output@, input@),
{
    let ghost o = out@;
    out.append("    if name == ::std::any::type_name::<");
    out.append(input);
    out.append(">() {\n");
    out.append("        fn decoder_cons() -> ::std::boxed::Box<dyn ::tokio_util::codec::Decoder<Item = ");
    out.append(output);
    out.append(", Error = ::std::io::Error> + ::core::marker::Sync + ::core::marker::Send> {\n            ::std::boxed::Box::new(::reactor_actor::codec::BincodeSubdecoder::<");
    out.append(input);
    out.append(", ");
    out.append(output);
    out.append(">::default())\n        }\n        fn any_to_m(msg: ::std::boxed::Box<dyn ::std::any::Any>) -> ");
    out.append(output);
    out.append(" {\n            let msg = msg.downcast::<");
    out.append(input);
    out.append(">().unwrap();\n            (*msg).into()\n        }\n        return Some(::reactor_actor::DecoderProvider { decoder_cons, any_to_m });\n    }\n");
    assert(out@ =~= o + arm_text(output@, input@));
}

fn push_listed(out: &mut String, input: &str)
    ensures
        final(out)@ == old(out)@ + listed_text(input@),
{
    let ghost o = out@;
    out.append("::std::any::type_name::<");
    out.append(input);
    out.append(">().to_string(), ");
    assert(out@ =~= o + listed_text(input@));
}

fn push_decoder_head(out: &mut String, name: &str, output: &str)
    ensures
        final(out)@ == old(out)@ + decoder_head_text(DecoderView { decoder_name: name@, inputs: Seq::empty(), output: output@ }),
{
    let ghost o = out@;
    out.append("fn ");
    out.append(name);
    out.append("(name: &str) -> ::std::option::Option<::reactor_actor::DecoderProvider<");
    out.append(output);
    out.append(">> {\n");
    assert(out@ =~= o + decoder_head_text(DecoderView { decoder_name: name@, inputs: Seq::empty(), output: output@ }));
}

fn push_variants(out: &mut String, vs: &Vec<String>)
    ensures
        final(out)@ == old(out)@ + variants_text(strs_view(vs@)),
{
    let ghost o = out@;
    let ghost sv = strs_view(vs@);
    let mut k: usize = 0;
    while k < vs.len()
        invariant
            sv == strs_view(vs@),
            k <= vs@.len(),
            out@ == o + variants_text(sv.take(k as int)),
        decreases vs@.len() - k,
    {
        let ghost before = out@;
        push_variant(out, vs[k].as_str());
        proof {
            assert(sv.take(k + 1).drop_last() =~= sv.take(k as int));
            assert(sv.take(k + 1).last() == vs@[k as int]@);
            assert(out@ =~= o + variants_text(sv.take(k + 1)));
        }
        k = k + 1;
    }
    assert(sv.take(vs@.len() as int) =~= sv);
}

fn push_from_variants(out: &mut String, name: &str, vs: &Vec<String>)
    ensures
        final(out)@ == old(out)@ + from_variants_text(name@, strs_view(vs@)),
{
    let ghost o = out@;
    let ghost sv = strs_view(vs@);
    let mut k: usize = 0;
    while k < vs.len()
        invariant
            sv == strs_view(vs@),
            k <= vs@.len(),
            out@ == o + from_variants_text(name@, sv.take(k as int)),
        decreases vs@.len() - k,
    {
        let ghost before = out@;
        push_from_variant(out, name, vs[k].as_str());
        proof {
            assert(sv.take(k + 1).drop_last() =~= sv.take(k as int));
            assert(sv.take(k + 1).last() == vs@[k as int]@);
            assert(out@ =~= o + from_variants_text(name@, sv.take(k + 1)));
        }
        k = k + 1;
    }
    assert(sv.take(vs@.len() as int) =~= sv);
}

fn push_into_variants(out: &mut String, name: &str, vs: &Vec<String>)
    ensures
        final(out)@ == old(out)@ + into_variants_text(name@, strs_view(vs@)),
{
    let ghost o = out@;
    let ghost sv = strs_view(vs@);
    let mut k: usize = 0;
    while k < vs.len()
        invariant
            sv == strs_view(vs@),
            k <= vs@.len(),
            out@ == o + into_variants_text(name@, sv.take(k as int)),
        decreases vs@.len() - k,
    {
        let ghost before = out@;
        push_into_variant(out, name, vs[k].as_str());
        proof {
            assert(sv.take(k + 1).drop_last() =~= sv.take(k as int));
            assert(sv.take(k + 1).last() == vs@[k as int]@);
            assert(out@ =~= o + into_variants_text(name@, sv.take(k + 1)));
        }
        k = k + 1;
    }
    assert(sv.take(vs@.len() as int) =~= sv);
}

fn push_arms(out: &mut String, output: &str, vs: &Vec<String>)
    ensures
        final(out)@ == old(out)@ + arms_text(output@, strs_view(vs@)),
{
    let ghost o = out@;
    let ghost sv = strs_view(vs@);
    let mut k: usize = 0;
    while k < vs.len()
        invariant
            sv == strs_view(vs@),
            k <= vs@.len(),
            out@ == o + arms_text(output@, sv.take(k as int)),
        decreases vs@.len() - k,
    {
        let ghost before = out@;
        push_arm(out, output, vs[k].as_str());
        proof {
            assert(sv.take(k + 1).drop_last() =~= sv.take(k as int));
            assert(sv.take(k + 1).last() == vs@[k as int]@);
            assert(out@ =~= o + arms_text(output@, sv.take(k + 1)));
        }
        k = k + 1;
    }
    assert(sv.take(vs@.len() as int) =~= sv);
}

fn push_listed_all(out: &mut String, vs: &Vec<String>)
    ensures
        final(out)@ == old(out)@ + listed_all_text(strs_view(vs@)),
{
    let ghost o = out@;
    let ghost sv = strs_view(vs@);
    let mut k: usize = 0;
    while k < vs.len()
        invariant
            sv == strs_view(vs@),
            k <= vs@.len(),
            out@ == o + listed_all_text(sv.take(k as int)),
        decreases vs@.len() - k,
    {
        let ghost before = out@;
        push_listed(out, vs[k].as_str());
        proof {
            assert(sv.take(k + 1).drop_last() =~= sv.take(k as int));
            assert(sv.take(k + 1).last() == vs@[k as int]@);
            assert(out@ =~= o + listed_all_text(sv.take(k + 1)));
        }
        k = k + 1;
    }
    assert(sv.take(vs@.len() as int) =~= sv);
}

fn push_union(out: &mut String, u: &UnionDef)
    ensures
        final(out)@ == old(out)@ + union_text(u@),
{
    let ghost o = out@;
    let name = u.name.as_str();
    push_enum_head(out, name);
    push_variants(out, &u.variants);
    push_enum_tail(out, name);
    push_from_variants(out, name, &u.variants);
    push_into_variants(out, name, &u.variants);
    assert(out@ =~= o + union_text(u@));
}

fn push_adapter(out: &mut String, a: &AdapterDef)
    ensures
        final(out)@ == old(out)@ + adapter_text(a@),
{
    let ghost o = out@;
    push_via(out, a.source.as_str(), a.target.as_str(), a.via.as_str());
    push_via(out, a.target.as_str(), a.source.as_str(), a.via.as_str());
    assert(out@ =~= o + adapter_text(a@));
}

fn push_decoder(out: &mut String, d: &DecoderDef)
    ensures
        final(out)@ == old(out)@ + decoder_text(d@),
{
    let ghost o = out@;
    push_decoder_head(out, d.decoder_name.as_str(), d.output.as_str());
    push_arms(out, d.output.as_str(), &d.inputs);
    out.append("    println!(\"Avaialable decoders: {:?}\", vec![");
    push_listed_all(out, &d.inputs);
    out.append("]);\n    None\n}\n");
    assert(out@ =~= o + decoder_text(d@));
}

fn push_unions(out: &mut String, xs: &Vec<UnionDef>)
    ensures
        final(out)@ == old(out)@ + unions_text(unions_view(xs@)),
{
    let ghost o = out@;
    let ghost sv = unions_view(xs@);
    let mut k: usize = 0;
    while k < xs.len()
        invariant
            sv == unions_view(xs@),
            k <= xs@.len(),
            out@ == o + unions_text(sv.take(k as int)),
        decreases xs@.len() - k,
    {
        push_union(out, &xs[k]);
        proof {
            assert(sv.take(k + 1).drop_last() =~= sv.take(k as int));
            assert(sv.take(k + 1).last() == xs@[k as int]@);
            assert(out@ =~= o + unions_text(sv.take(k + 1)));
        }
        k = k + 1;
    }
    assert(sv.take(xs@.len() as int) =~= sv);
}

fn push_adapters(out: &mut String, xs: &Vec<AdapterDef>)
    ensures
        final(out)@ == old(out)@ + adapters_text(adapters_view(xs@)),
{
    let ghost o = out@;
    let ghost sv = adapters_view(xs@);
    let mut k: usize = 0;
    while k < xs.len()
        invariant
            sv == adapters_view(xs@),
            k <= xs@.len(),
            out@ == o + adapters_text(sv.take(k as int)),
        decreases xs@.len() - k,
    {
        push_adapter(out, &xs[k]);
        proof {
            assert(sv.take(k + 1).drop_last() =~= sv.take(k as int));
            assert(sv.take(k + 1).last() == xs@[k as int]@);
            assert(out@ =~= o + adapters_text(sv.take(k + 1)));
        }
        k = k + 1;
    }
    assert(sv.take(xs@.len() as int) =~= sv);
}

fn push_decoders(out: &mut String, xs: &Vec<DecoderDef>)
    ensures
        final(out)@ == old(out)@ + decoders_text(decoders_view(xs@)),
{
    let ghost o = out@;
    let ghost sv = decoders_view(xs@);
    let mut k: usize = 0;
    while k < xs.len()
        invariant
            sv == decoders_view(xs@),
            k <= xs@.len(),
            out@ == o + decoders_text(sv.take(k as int)),
        decreases xs@.len() - k,
    {
        push_decoder(out, &xs[k]);
        proof {
            assert(sv.take(k + 1).drop_last() =~= sv.take(k as int));
            assert(sv.take(k + 1).last() == xs@[k as int]@);
            assert(out@ =~= o + decoders_text(sv.take(k + 1)));
        }
        k = k + 1;
    }
    assert(sv.take(xs@.len() as int) =~= sv);
}

/// The code of all declarations (see [`converters_text`]).
pub fn generate(m: &MsgConverters) -> (r: String)
    ensures
        r@ == converters_text(m@),
{
    let mut out = String::new();
    push_unions(&mut out, &m.unions);
    push_adapters(&mut out, &m.adapters);
    push_decoders(&mut out, &m.decoders);
    assert(out@ =~= converters_text(m@));
    out
}

/// The code that a text of the language stands for, or why the text is not
/// one.
pub fn msg_converter(text: &str) -> (r: Result<String, ParseError>)
    ensures
        match spec_lex(text@, 0) {
            Err(p) => r matches Err(e) && e.pos == p && e.kind == ParseErrorKind::UnexpectedChar,
            Ok(ts) => match spec_doc(ts, 0) {
                Ok(d) => r matches Ok(s) && s@ == converters_text(flatten(d)),
                Err((p, k)) => r matches Err(e) && e.pos == p && e.kind == k,
            },
        },
{
    let m = MsgConverters::parse_text(text)?;
    Ok(generate(&m))
}

} // verus!
verus! {

proof fn lemma_arms_flat(output: Seq<char>, ins: Seq<Seq<char>>)
    ensures
        arms_text(output, ins) == ins.map_values(|i: Seq<char>| arm_text(output, i)).flatten_alt(),
    decreases ins.len(),
{
    let arms = ins.map_values(|i: Seq<char>| arm_text(output, i));
    if ins.len() > 0 {
        lemma_arms_flat(output, ins.drop_last());
        assert(arms.drop_last() =~= ins.drop_last().map_values(|i: Seq<char>| arm_text(output, i)));
    } else {
        assert(arms =~= Seq::<Seq<char>>::empty());
    }
}

proof fn lemma_listed_flat(ins: Seq<Seq<char>>)
    ensures
        listed_all_text(ins) == ins.map_values(|i: Seq<char>| listed_text(i)).flatten_alt(),
    decreases ins.len(),
{
    let xs = ins.map_values(|i: Seq<char>| listed_text(i));
    if ins.len() > 0 {
        lemma_listed_flat(ins.drop_last());
        assert(xs.drop_last() =~= ins.drop_last().map_values(|i: Seq<char>| listed_text(i)));
    } else {
        assert(xs =~= Seq::<Seq<char>>::empty());
    }
}

proof fn lemma_variants_flat(name: Seq<char>, vs: Seq<Seq<char>>)
    ensures
        variants_text(vs) == vs.map_values(|v: Seq<char>| variant_text(v)).flatten_alt(),
        from_variants_text(name, vs) == vs.map_values(|v: Seq<char>| from_variant_text(name, v)).flatten_alt(),
        into_variants_text(name, vs) == vs.map_values(|v: Seq<char>| into_variant_text(name, v)).flatten_alt(),
    decreases vs.len(),
{
    let a = vs.map_values(|v: Seq<char>| variant_text(v));
    let b = vs.map_values(|v: Seq<char>| from_variant_text(name, v));
    let c = vs.map_values(|v: Seq<char>| into_variant_text(name, v));
    if vs.len() > 0 {
        lemma_variants_flat(name, vs.drop_last());
        assert(a.drop_last() =~= vs.drop_last().map_values(|v: Seq<char>| variant_text(v)));
        assert(b.drop_last() =~= vs.drop_last().map_values(|v: Seq<char>| from_variant_text(name, v)));
        assert(c.drop_last() =~= vs.drop_last().map_values(|v: Seq<char>| into_variant_text(name, v)));
    } else {
        assert(a =~= Seq::<Seq<char>>::empty());
        assert(b =~= Seq::<Seq<char>>::empty());
        assert(c =~= Seq::<Seq<char>>::empty());
    }
}

/// A union's code is the enum with exactly one variant per declared message
/// type, in order, each variant named after the type it wraps, then the
/// message traits, then one conversion into the enum per type and one
/// conversion out of it per type, both in order.
pub proof fn law_union_one_variant_per_type(u: UnionView)
    ensures
        union_text(u) == enum_head_text(u.name) + u.variants.map_values(|v: Seq<char>| variant_text(v)).flatten()
            + enum_tail_text(u.name) + u.variants.map_values(
            |v: Seq<char>| from_variant_text(u.name, v),
        ).flatten() + u.variants.map_values(|v: Seq<char>| into_variant_text(u.name, v)).flatten(),
        forall|v: Seq<char>| #[trigger] variant_text(v) == "    "@ + v + "("@ + v + "),\n"@,
{
    lemma_variants_flat(u.name, u.variants);
    u.variants.map_values(|v: Seq<char>| variant_text(v)).lemma_flatten_and_flatten_alt_are_equivalent();
    u.variants.map_values(|v: Seq<char>| from_variant_text(u.name, v)).lemma_flatten_and_flatten_alt_are_equivalent();
    u.variants.map_values(|v: Seq<char>| into_variant_text(u.name, v)).lemma_flatten_and_flatten_alt_are_equivalent();
}

proof fn lemma_sections_flat(m: ConvertersView)
    ensures
        unions_text(m.unions) == m.unions.map_values(|u: UnionView| union_text(u)).flatten_alt(),
        adapters_text(m.adapters) == m.adapters.map_values(|a: AdapterView| adapter_text(a)).flatten_alt(),
        decoders_text(m.decoders) == m.decoders.map_values(|d: DecoderView| decoder_text(d)).flatten_alt(),
    decreases m.unions.len() + m.adapters.len() + m.decoders.len(),
{
    let us = m.unions.map_values(|u: UnionView| union_text(u));
    let xs = m.adapters.map_values(|a: AdapterView| adapter_text(a));
    let ds = m.decoders.map_values(|d: DecoderView| decoder_text(d));
    if m.unions.len() > 0 {
        lemma_sections_flat(ConvertersView { unions: m.unions.drop_last(), ..m });
        assert(us.drop_last() =~= m.unions.drop_last().map_values(|u: UnionView| union_text(u)));
    } else if m.adapters.len() > 0 {
        lemma_sections_flat(ConvertersView { adapters: m.adapters.drop_last(), ..m });
        assert(xs.drop_last() =~= m.adapters.drop_last().map_values(|a: AdapterView| adapter_text(a)));
        assert(us =~= Seq::<Seq<char>>::empty());
    } else if m.decoders.len() > 0 {
        lemma_sections_flat(ConvertersView { decoders: m.decoders.drop_last(), ..m });
        assert(ds.drop_last() =~= m.decoders.drop_last().map_values(|d: DecoderView| decoder_text(d)));
        assert(us =~= Seq::<Seq<char>>::empty());
        assert(xs =~= Seq::<Seq<char>>::empty());
    } else {
        assert(us =~= Seq::<Seq<char>>::empty());
        assert(xs =~= Seq::<Seq<char>>::empty());
        assert(ds =~= Seq::<Seq<char>>::empty());
    }
}

/// The code of all declarations is the code of each union, in order, then of
/// each adapter, then of each decoder: every declaration gives its code once.
pub proof fn law_code_per_declaration(m: ConvertersView)
    ensures
        converters_text(m) == m.unions.map_values(|u: UnionView| union_text(u)).flatten()
            + m.adapters.map_values(|a: AdapterView| adapter_text(a)).flatten() + m.decoders.map_values(
            |d: DecoderView| decoder_text(d),
        ).flatten(),
        forall|a: AdapterView| #[trigger] adapter_text(a) == via_text(a.source, a.target, a.via)
            + via_text(a.target, a.source, a.via),
{
    lemma_sections_flat(m);
    m.unions.map_values(|u: UnionView| union_text(u)).lemma_flatten_and_flatten_alt_are_equivalent();
    m.adapters.map_values(|a: AdapterView| adapter_text(a)).lemma_flatten_and_flatten_alt_are_equivalent();
    m.decoders.map_values(|d: DecoderView| decoder_text(d)).lemma_flatten_and_flatten_alt_are_equivalent();
}

/// A decoder's code is its head, then exactly one arm per input, in the
/// order the inputs were declared, then the fallback that lists the inputs and
/// answers `None`; the arm for input `I` opens by comparing the name asked for
/// with the type name of `I`, and builds the sub-decoder from `I` to the
/// decoder's output type.
pub proof fn law_decoder_one_arm_per_input(d: DecoderView)
    ensures
        arm_open_prefix() == "    if name == ::std::any::type_name::<"@,
        decoder_fallback_text(d.inputs) == "    println!(\"Avaialable decoders: {:?}\", vec!["@
            + d.inputs.map_values(|i: Seq<char>| listed_text(i)).flatten() + "]);\n    None\n}\n"@,
        decoder_text(d) == decoder_head_text(d) + d.inputs.map_values(
            |i: Seq<char>| arm_text(d.output, i),
        ).flatten() + decoder_fallback_text(d.inputs),
        forall|i: Seq<char>|
            #![trigger arm_text(d.output, i)]
            arm_text(d.output, i).take(arm_open_text(i).len() as int) == arm_open_text(i),
        forall|i: Seq<char>|
            #![trigger arm_text(d.output, i)]
            arm_open_text(i).take(arm_open_prefix().len() as int) == arm_open_prefix()
                && arm_open_text(i).skip(arm_open_prefix().len() as int).take(i.len() as int) == i,
{
    lemma_arms_flat(d.output, d.inputs);
    d.inputs.map_values(|i: Seq<char>| arm_text(d.output, i)).lemma_flatten_and_flatten_alt_are_equivalent();
    lemma_listed_flat(d.inputs);
    d.inputs.map_values(|i: Seq<char>| listed_text(i)).lemma_flatten_and_flatten_alt_are_equivalent();
    assert forall|i: Seq<char>| #![trigger arm_text(d.output, i)]
        arm_text(d.output, i).take(arm_open_text(i).len() as int) == arm_open_text(i)
        && arm_open_text(i).take(arm_open_prefix().len() as int) == arm_open_prefix()
        && arm_open_text(i).skip(arm_open_prefix().len() as int).take(i.len() as int) == i by {
        assert(arm_text(d.output, i).take(arm_open_text(i).len() as int) =~= arm_open_text(i));
        assert(arm_open_text(i).take(arm_open_prefix().len() as int) =~= arm_open_prefix());
        assert(arm_open_text(i).skip(arm_open_prefix().len() as int).take(i.len() as int) =~= i);
    }
}

} // verus!
