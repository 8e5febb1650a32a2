//! The host environment probe: which operating system runs here, and which
//! processor architecture a runtime is expected to have.
//!
//! What the machine reports is gathered elsewhere and handed in as a
//! [`HostReport`]; this module reads it.

use crate::properties::{properties_of, Properties};
use crate::text::{
    chars_of, has_suffix, replace_all, split, split_on, string_of, substitute, texts,
};
use vstd::prelude::*;

verus! {

/// The operating system of the host and the architecture that a runtime on
/// it has by default.
#[derive(Clone, Debug, PartialEq, Eq)]
pub struct OperatingSystem {
    /// The name of the system: `macOS`, the `ID` of a Linux distribution,
    /// or the product name of a Windows.
    pub name: String,
    /// The architecture that a runtime on this host has by default.
    pub architecture: String,
}

/// What the host says of itself.
#[derive(Clone, Debug, PartialEq, Eq)]
pub enum HostReport {
    /// A Unix-like host.
    Unix {
        /// What `uname -ps` printed: the kernel name, a blank, the processor.
        uname: String,
        /// The bytes of `/etc/os-release`, where the file could be read.
        os_release: Option<Vec<u8>>,
    },
    /// A Windows host.
    Windows {
        /// The product name in the registry.
        product_name: String,
        /// The processor architecture in the registry.
        processor_architecture: String,
    },
}

/// `c` in lower case, where it is an ASCII capital.
pub open spec fn folded(c: char) -> char {
    if 'A' <= c && c <= 'Z' {
        ((c as u8) + 32) as char
    } else {
        c
    }
}

/// Two texts are the same but for the case of ASCII letters.
pub open spec fn same_ignoring_case(a: Seq<char>, b: Seq<char>) -> bool {
    a.len() == b.len() && forall|i: int| 0 <= i < a.len() ==> folded(a[i]) == folded(b[i])
}

/// `c` in lower case, where it is an ASCII capital.
fn fold(c: char) -> (r: char)
    ensures
        r == folded(c),
{
    if 'A' <= c && c <= 'Z' {
        ((c as u8) + 32) as char
    } else {
        c
    }
}

/// Whether two texts are the same but for the case of ASCII letters.
pub fn eq_ignore_ascii_case(a: &Vec<char>, b: &str) -> (r: bool)
    ensures
        r == same_ignoring_case(a@, b@),
{
    let other = chars_of(b);
    if a.len() != other.len() {
        return false;
    }
    let mut i: usize = 0;
    while i < a.len()
        invariant
            i <= a.len(),
            a.len() == other.len(),
            other@ == b@,
            forall|j: int| 0 <= j < i ==> folded(a@[j]) == folded(other@[j]),
        decreases a.len() - i,
    {
        if fold(a[i]) != fold(other[i]) {
            return false;
        }
        i += 1;
    }
    true
}

/// `s` without the line end that closes it: a carriage return and a line
/// feed, or a line feed alone.
pub open spec fn line_end_trimmed(s: Seq<char>) -> Seq<char> {
    if has_suffix(s, seq!['\r', '\n']) {
        s.take(s.len() - 2)
    } else if has_suffix(s, seq!['\n']) {
        s.take(s.len() - 1)
    } else {
        s
    }
}

/// Takes one closing line end off `value`.
pub fn trim_string(value: &str) -> (r: &str)
    ensures
        r@ == line_end_trimmed(value@),
{
    let n = value.unicode_len();
    if n >= 2 && value.get_char(n - 2) == '\r' && value.get_char(n - 1) == '\n' {
        proof {
            assert(value@.skip(n - 2) =~= seq!['\r', '\n']);
            assert(value@.subrange(0, n - 2) == value@.take(n - 2));
        }
        value.substring_char(0, n - 2)
    } else if n >= 1 && value.get_char(n - 1) == '\n' {
        proof {
            assert(value@.skip(n - 1) =~= seq!['\n']);
            assert(value@.subrange(0, n - 1) == value@.take(n - 1));
            if n >= 2 {
                assert(value@.skip(n - 2)[0] == value@[n - 2]);
            }
        }
        value.substring_char(0, n - 1)
    } else {
        proof {
            if n >= 1 {
                assert(value@.skip(n - 1)[0] == value@[n - 1]);
            }
            if n >= 2 {
                assert(value@.skip(n - 2)[1] == value@[n - 1]);
            }
        }
        value
    }
}

/// A value of a properties file without its double quotes.
pub open spec fn unquoted(value: Seq<char>) -> Seq<char> {
    substitute(value, seq!['"'], Seq::empty())
}

/// The value of `key` without its double quotes; empty where the file has
/// no such key.
pub open spec fn property(map: Map<Seq<char>, Seq<char>>, key: Seq<char>) -> Seq<char> {
    if map.contains_key(key) {
        unquoted(map[key])
    } else {
        Seq::empty()
    }
}

/// Takes the double quotes out of `value`.
pub fn unquote(value: &Vec<char>) -> (out: Vec<char>)
    ensures
        out@ == unquoted(value@),
{
    let mut quote: Vec<char> = Vec::new();
    quote.push('"');
    let nothing: Vec<char> = Vec::new();
    assert(quote@ =~= seq!['"']);
    assert(nothing@ =~= Seq::<char>::empty());
    replace_all(value, &quote, &nothing)
}

/// The value of `key` without its double quotes.
pub fn unquoted_property(properties: &Properties, key: &str) -> (out: Vec<char>)
    ensures
        out@ == property(properties@, key@),
{
    match properties.get(key) {
        Some(value) => unquote(&value),
        None => Vec::new(),
    }
}

/// The architecture that a runtime has by default on a Unix-like host whose
/// `uname` names this kernel and this processor. `None` where the pair is
/// not a known one.
pub open spec fn unix_architecture(kernel: Seq<char>, processor: Seq<char>) -> Option<Seq<char>> {
    if same_ignoring_case(kernel, "Darwin"@) {
        if same_ignoring_case(processor, "arm"@) {
            Some("aarch64"@)
        } else {
            Some("x86_64"@)
        }
    } else if same_ignoring_case(kernel, "Linux"@) {
        if same_ignoring_case(processor, "x86_64"@) {
            Some("x86_64"@)
        } else if same_ignoring_case(processor, "i386"@) || same_ignoring_case(processor, "i586"@)
            || same_ignoring_case(processor, "i686"@) {
            Some("x86"@)
        } else if same_ignoring_case(processor, "aarch64"@) {
            Some("aarch64"@)
        } else if same_ignoring_case(processor, "arm64"@) {
            Some("arm64"@)
        } else {
            None
        }
    } else {
        None
    }
}

/// The architecture that a runtime has by default on a Windows host with
/// this processor architecture.
pub open spec fn windows_architecture(processor: Seq<char>) -> Option<Seq<char>> {
    if same_ignoring_case(processor, "amd64"@) {
        Some("x86_64"@)
    } else if same_ignoring_case(processor, "x86"@) {
        Some("x86"@)
    } else if same_ignoring_case(processor, "arm64"@) {
        Some("arm64"@)
    } else {
        None
    }
}

/// The name of a Unix-like host: `macOS` on Darwin; on Linux the `ID` of
/// `/etc/os-release`, and none where that file is missing or unreadable.
pub open spec fn unix_name(kernel: Seq<char>, os_release: Option<Seq<u8>>) -> Option<Seq<char>> {
    if same_ignoring_case(kernel, "Linux"@) {
        match os_release {
            Some(bytes) => match properties_of(bytes) {
                Some(map) => Some(property(map, "ID"@)),
                None => None,
            },
            None => None,
        }
    } else if same_ignoring_case(kernel, "Darwin"@) {
        Some("macOS"@)
    } else {
        Some(Seq::empty())
    }
}

/// What a report says of the host, as name and default architecture; `None`
/// where the report cannot be read or names a host that is not known.
pub open spec fn detected(report: HostReport) -> Option<(Seq<char>, Seq<char>)> {
    match report {
        HostReport::Unix { uname, os_release } => {
            let parts = split(uname@, ' ');
            if parts.len() < 2 {
                None
            } else {
                let kernel = line_end_trimmed(parts[0]);
                let processor = line_end_trimmed(parts[1]);
                let bytes = match os_release {
                    Some(b) => Some(b@),
                    None => None,
                };
                match (unix_architecture(kernel, processor), unix_name(kernel, bytes)) {
                    (Some(architecture), Some(name)) => Some((name, architecture)),
                    _ => None,
                }
            }
        },
        HostReport::Windows { product_name, processor_architecture } => {
            match windows_architecture(processor_architecture@) {
                Some(architecture) => Some((product_name@, architecture)),
                None => None,
            }
        },
    }
}

/// The default architecture on a Unix-like host.
fn unix_default_architecture(kernel: &Vec<char>, processor: &Vec<char>) -> (r: Option<String>)
    ensures
        match r {
            Some(a) => unix_architecture(kernel@, processor@) == Some(a@),
            None => unix_architecture(kernel@, processor@) is None,
        },
{
    if eq_ignore_ascii_case(kernel, "Darwin") {
        if eq_ignore_ascii_case(processor, "arm") {
            Some("aarch64".to_owned())
        } else {
            Some("x86_64".to_owned())
        }
    } else if eq_ignore_ascii_case(kernel, "Linux") {
        if eq_ignore_ascii_case(processor, "x86_64") {
            Some("x86_64".to_owned())
        } else if eq_ignore_ascii_case(processor, "i386") || eq_ignore_ascii_case(processor, "i586")
            || eq_ignore_ascii_case(processor, "i686") {
            Some("x86".to_owned())
        } else if eq_ignore_ascii_case(processor, "aarch64") {
            Some("aarch64".to_owned())
        } else if eq_ignore_ascii_case(processor, "arm64") {
            Some("arm64".to_owned())
        } else {
            None
        }
    } else {
        None
    }
}

/// The name of a Unix-like host.
fn unix_host_name(kernel: &Vec<char>, os_release: &Option<Vec<u8>>) -> (r: Option<String>)
    ensures
        match r {
            Some(name) => unix_name(
                kernel@,
                match *os_release {
                    Some(b) => Some(b@),
                    None => None,
                },
            ) == Some(name@),
            None => unix_name(
                kernel@,
                match *os_release {
                    Some(b) => Some(b@),
                    None => None,
                },
            ) is None,
        },
{
    if eq_ignore_ascii_case(kernel, "Linux") {
        match os_release {
            Some(bytes) => match Properties::parse(bytes) {
                Some(properties) => Some(string_of(&unquoted_property(&properties, "ID"))),
                None => None,
            },
            None => None,
        }
    } else if eq_ignore_ascii_case(kernel, "Darwin") {
        Some("macOS".to_owned())
    } else {
        Some(String::new())
    }
}

/// Reads what the host reports of itself. There is no operating system
/// where the report cannot be read or the pair of system and processor is
/// not a known one.
pub fn get_operating_system(report: &HostReport) -> (r: Option<OperatingSystem>)
    ensures
        match r {
            Some(os) => detected(*report) == Some((os.name@, os.architecture@)),
            None => detected(*report) is None,
        },
{
    match report {
        HostReport::Unix { uname, os_release } => {
            let parts = split_on(&chars_of(uname.as_str()), ' ');
            if parts.len() < 2 {
                return None;
            }
            proof {
                assert(texts(parts@)[0] == parts@[0]@);
                assert(texts(parts@)[1] == parts@[1]@);
            }
            let first = string_of(&parts[0]);
            let second = string_of(&parts[1]);
            let kernel = chars_of(trim_string(first.as_str()));
            let processor = chars_of(trim_string(second.as_str()));
            let architecture = match unix_default_architecture(&kernel, &processor) {
                Some(a) => a,
                None => {
                    return None;
                },
            };
            match unix_host_name(&kernel, os_release) {
                Some(name) => Some(OperatingSystem { name, architecture }),
                None => None,
            }
        },
        HostReport::Windows { product_name, processor_architecture } => {
            let processor = chars_of(processor_architecture.as_str());
            let architecture = if eq_ignore_ascii_case(&processor, "amd64") {
                "x86_64".to_owned()
            } else if eq_ignore_ascii_case(&processor, "x86") {
                "x86".to_owned()
            } else if eq_ignore_ascii_case(&processor, "arm64") {
                "arm64".to_owned()
            } else {
                return None;
            };
            Some(OperatingSystem { name: product_name.clone(), architecture })
        },
    }
}

} // verus!
