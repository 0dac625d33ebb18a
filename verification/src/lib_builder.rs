//! Checks on the manifest of an operator library compiled on a node.
use vstd::prelude::*;

verus! {

#[verifier::external_type_specification]
#[verifier::external_body]
pub struct ExIoError(std::io::Error);

/// Why an operator library could not be built.
#[derive(Debug)]
pub enum BuildError {
    /// The manifest does not describe a loadable library.
    InvalidCargoToml,
    /// The compiler failed.
    BuildFailed,
    /// Reading or writing the build directory failed.
    Io(std::io::Error),
    /// The built library could not be loaded.
    LibraryLoadFailed,
    /// Generating the library's code failed.
    CodegenFailed(String),
}

/// The `[lib]` section of a manifest: its crate types and its name.
#[derive(Debug)]
pub struct LibSection {
    pub crate_type: Vec<String>,
    pub name: Option<String>,
}

/// A `[lib]` section as plain values.
pub open spec fn section_view(s: LibSection) -> (Seq<Seq<char>>, Option<Seq<char>>) {
    (
        s.crate_type@.map_values(|t: String| t@),
        match s.name {
            Some(n) => Some(n@),
            None => None,
        },
    )
}

/// The result of reading a manifest as plain values: `None` when it does not
/// parse, `Some(None)` when it has no `[lib]` section.
pub open spec fn manifest_view(m: Option<Option<LibSection>>) -> Option<
    Option<(Seq<Seq<char>>, Option<Seq<char>>)>,
> {
    match m {
        None => None,
        Some(None) => Some(None),
        Some(Some(s)) => Some(Some(section_view(s))),
    }
}

/// What `cargo_toml::Manifest::from_str` reads from a manifest's text, seen
/// through its `[lib]` section.
pub uninterp spec fn parsed_lib_section(text: Seq<char>) -> Option<
    Option<(Seq<Seq<char>>, Option<Seq<char>>)>,
>;

/// `cargo_toml::Manifest::from_str`: parses the text of a `Cargo.toml`
/// (without completing it from the file system). Only its `[lib]` section is
/// kept: crate types and name. The parse is a function of the text alone,
/// named `parsed_lib_section`.
#[verifier::external_body]
fn read_lib_section(text: &str) -> (r: Option<Option<LibSection>>)
    ensures
        manifest_view(r) == parsed_lib_section(text@),
{
    match cargo_toml::Manifest::from_str(text) {
        Ok(m) => match m.lib {
            Some(l) => Some(Some(LibSection { crate_type: l.crate_type, name: l.name })),
            None => Some(None),
        },
        Err(_) => None,
    }
}

/// The characters of `cdylib`.
pub open spec fn cdylib() -> Seq<char> {
    seq!['c', 'd', 'y', 'l', 'i', 'b']
}

/// The library name that a parsed manifest yields: it must have a `[lib]`
/// section whose crate types include `cdylib` and which names the library.
pub open spec fn spec_library_name(m: Option<Option<(Seq<Seq<char>>, Option<Seq<char>>)>>) -> Option<
    Seq<char>,
> {
    match m {
        Some(Some((types, Some(name)))) => if types.contains(cdylib()) {
            Some(name)
        } else {
            None
        },
        _ => None,
    }
}

/// The library name of a parsed manifest, or `InvalidCargoToml`.
pub fn library_name(m: Option<Option<LibSection>>) -> (r: Result<String, BuildError>)
    ensures
        match spec_library_name(manifest_view(m)) {
            Some(n) => r matches Ok(s) && s@ == n,
            None => r matches Err(BuildError::InvalidCargoToml),
        },
{
    let section = match m {
        Some(Some(s)) => s,
        _ => {
            return Err(BuildError::InvalidCargoToml);
        },
    };
    let ghost types = section.crate_type@.map_values(|t: String| t@);
    let lit = "cdylib";
    proof {
        reveal_strlit("cdylib");
    }
    let wanted = String::from_str(lit);
    let mut found = false;
    let mut i: usize = 0;
    while i < section.crate_type.len()
        invariant
            i <= section.crate_type@.len(),
            wanted@ == cdylib(),
            types == section.crate_type@.map_values(|t: String| t@),
            found == types.take(i as int).contains(cdylib()),
        decreases section.crate_type@.len() - i,
    {
        let ghost prev = found;
        let is_cdylib = section.crate_type[i] == wanted;
        if is_cdylib {
            found = true;
        }
        proof {
            let t = types.take(i + 1);
            let p = types.take(i as int);
            assert(types[i as int] == section.crate_type@[i as int]@);
            assert(is_cdylib == (types[i as int] == cdylib()));
            if p.contains(cdylib()) {
                let j = choose|j: int| 0 <= j < p.len() && p[j] == cdylib();
                assert(t[j] == p[j]);
            }
            if is_cdylib {
                assert(t[i as int] == cdylib());
            }
            if t.contains(cdylib()) {
                let j = choose|j: int| 0 <= j < t.len() && t[j] == cdylib();
                if j < i {
                    assert(p[j] == t[j]);
                }
            }
        }
        i = i + 1;
    }
    assert(types.take(types.len() as int) =~= types);
    if !found {
        return Err(BuildError::InvalidCargoToml);
    }
    match section.name {
        Some(n) => Ok(n),
        None => Err(BuildError::InvalidCargoToml),
    }
}

/// Builds operator libraries on a node.
pub struct LibBuilder {}

impl LibBuilder {
    /// The name of the library that the manifest text `deps` describes, if it
    /// describes a loadable one (see [`library_name`]).
    pub fn manifest_library_name(deps: &str) -> (r: Result<String, BuildError>)
        ensures
            match spec_library_name(parsed_lib_section(deps@)) {
                Some(n) => r matches Ok(s) && s@ == n,
                None => r matches Err(BuildError::InvalidCargoToml),
            },
    {
        library_name(read_lib_section(deps))
    }

    /// The file that the build of library `name` leaves, for a platform whose
    /// shared objects end in `extension`: `lib{name}.{extension}`.
    pub fn library_file(name: &str, extension: &str) -> (r: String)
        ensures
            r@ == "lib"@ + name@ + "."@ + extension@,
    {
        let mut s = String::from_str("lib");
        s.append(name);
        s.append(".");
        s.append(extension);
        s
    }
}

} // verus!

verus! {

/// A manifest yields a library name exactly when it has a `[lib]` section that
/// names the library and lists `cdylib` among its crate types; the name is
/// the one the section gives.
pub proof fn law_library_name(m: Option<Option<(Seq<Seq<char>>, Option<Seq<char>>)>>)
    ensures
        spec_library_name(m) is Some <==> (m matches Some(Some((types, Some(_)))) && types.contains(
            seq!['c', 'd', 'y', 'l', 'i', 'b'],
        )),
        spec_library_name(m) is Some ==> (m matches Some(Some((_, Some(n)))) && spec_library_name(m)
            == Some(n)),
{
}

} // verus!
