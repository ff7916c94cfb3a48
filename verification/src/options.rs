use vstd::prelude::*;
use vstd::string::StringExecFns;

verus! {

/// The rendering of encoded text.
#[derive(Debug, Clone, Copy, PartialEq, Eq, Structural)]
pub enum Encoding {
    Ascii,
    Unicode,
}

/// The rendering that a name stands for: `a` or `ascii`, `u` or `unicode`.
pub open spec fn encoding_of(name: Seq<char>) -> Option<Encoding> {
    if name == "a"@ || name == "ascii"@ {
        Some(Encoding::Ascii)
    } else if name == "u"@ || name == "unicode"@ {
        Some(Encoding::Unicode)
    } else {
        None
    }
}

/// Reads the name of a rendering, or says that the name is not one.
pub fn encoding_from_str(input: &str) -> (r: Result<Encoding, String>)
    ensures
        match encoding_of(input@) {
            Some(e) => r == Ok::<Encoding, String>(e),
            None => r is Err && r->Err_0@ == "unrecognized encoding "@ + input@,
        },
{
    let name = String::from_str(input);
    if name == String::from_str("a") || name == String::from_str("ascii") {
        Ok(Encoding::Ascii)
    } else if name == String::from_str("u") || name == String::from_str("unicode") {
        Ok(Encoding::Unicode)
    } else {
        Err(String::from_str("unrecognized encoding ").concat(input))
    }
}

} // verus!
