use vstd::prelude::*;
use vstd::string::*;
use crate::error::Error;

verus! {

/// What a name holds: an optional prefix, the local part, and the namespace
/// the name was resolved against, if any.
pub struct NameView {
    pub prefix: Option<Seq<char>>,
    pub local_name: Seq<char>,
    pub namespace_uri: Option<Seq<char>>,
}

/// The view of an optional string.
pub open spec fn opt_str_view(s: Option<String>) -> Option<Seq<char>> {
    match s {
        Some(t) => Some(t@),
        None => None,
    }
}

impl NameView {
    /// The qualified form: `prefix:local`, or `local` alone without a prefix.
    pub open spec fn qualified(self) -> Seq<char> {
        match self.prefix {
            Some(p) => p + seq![':'] + self.local_name,
            None => self.local_name,
        }
    }

    /// The name is `xmlns`, or its prefix is `xmlns`.
    pub open spec fn is_namespace_attribute(self) -> bool {
        match self.prefix {
            Some(p) => p == xmlns(),
            None => self.local_name == xmlns(),
        }
    }

    /// The local part is exactly `id`.
    pub open spec fn is_id_attribute(self) -> bool {
        self.local_name == seq!['i', 'd']
    }
}

pub open spec fn xmlns() -> Seq<char> {
    seq!['x', 'm', 'l', 'n', 's']
}

/// A character that may begin a name part.
pub open spec fn is_name_start_char(c: char) -> bool {
    let u = c as u32;
    ||| 0x41 <= u <= 0x5A
    ||| u == 0x5F
    ||| 0x61 <= u <= 0x7A
    ||| 0xC0 <= u <= 0xD6
    ||| 0xD8 <= u <= 0xF6
    ||| 0xF8 <= u <= 0x2FF
    ||| 0x370 <= u <= 0x37D
    ||| 0x37F <= u <= 0x1FFF
    ||| 0x200C <= u <= 0x200D
    ||| 0x2070 <= u <= 0x218F
    ||| 0x2C00 <= u <= 0x2FEF
    ||| 0x3001 <= u <= 0xD7FF
    ||| 0xF900 <= u <= 0xFDCF
    ||| 0xFDF0 <= u <= 0xFFFD
    ||| 0x10000 <= u <= 0xEFFFF
}

/// A character that may stand anywhere in a name part. The colon is not one:
/// it only separates the prefix from the local part.
pub open spec fn is_name_char(c: char) -> bool {
    let u = c as u32;
    ||| is_name_start_char(c)
    ||| u == 0x2D
    ||| u == 0x2E
    ||| 0x30 <= u <= 0x39
    ||| u == 0xB7
    ||| 0x300 <= u <= 0x36F
    ||| 0x203F <= u <= 0x2040
}

/// A name part: not empty, begun by a start character, made of name characters.
pub open spec fn is_name_part(s: Seq<char>) -> bool {
    &&& s.len() > 0
    &&& is_name_start_char(s[0])
    &&& forall|i: int| 0 <= i < s.len() ==> is_name_char(#[trigger] s[i])
}

/// The name that a string spells, if it spells one: a name part, or two of
/// them around a single colon.
pub open spec fn parse_name(s: Seq<char>) -> Option<NameView> {
    match s.index_of_first(':') {
        Some(k) => {
            let p = s.subrange(0, k);
            let l = s.subrange(k + 1, s.len() as int);
            if is_name_part(p) && is_name_part(l) {
                Some(NameView { prefix: Some(p), local_name: l, namespace_uri: None })
            } else {
                None
            }
        },
        None => if is_name_part(s) {
            Some(NameView { prefix: None, local_name: s, namespace_uri: None })
        } else {
            None
        },
    }
}

/// The name that a qualified name spells within a namespace.
pub open spec fn parse_name_ns(ns: Seq<char>, s: Seq<char>) -> Option<NameView> {
    match parse_name(s) {
        Some(n) => Some(NameView { namespace_uri: Some(ns), ..n }),
        None => None,
    }
}

pub fn name_start_char(c: char) -> (b: bool)
    ensures
        b == is_name_start_char(c),
{
    let u: u32 = c as u32;
    (0x41 <= u && u <= 0x5A) || u == 0x5F || (0x61 <= u && u <= 0x7A) || (0xC0 <= u && u <= 0xD6)
        || (0xD8 <= u && u <= 0xF6) || (0xF8 <= u && u <= 0x2FF) || (0x370 <= u && u <= 0x37D)
        || (0x37F <= u && u <= 0x1FFF) || (0x200C <= u && u <= 0x200D) || (0x2070 <= u && u
        <= 0x218F) || (0x2C00 <= u && u <= 0x2FEF) || (0x3001 <= u && u <= 0xD7FF) || (0xF900 <= u
        && u <= 0xFDCF) || (0xFDF0 <= u && u <= 0xFFFD) || (0x10000 <= u && u <= 0xEFFFF)
}

pub fn name_char(c: char) -> (b: bool)
    ensures
        b == is_name_char(c),
{
    let u: u32 = c as u32;
    name_start_char(c) || u == 0x2D || u == 0x2E || (0x30 <= u && u <= 0x39) || u == 0xB7 || (0x300
        <= u && u <= 0x36F) || (0x203F <= u && u <= 0x2040)
}

/// The characters of a string, in order.
pub(crate) fn chars_of(s: &str) -> (v: Vec<char>)
    ensures
        v@ == s@,
{
    let mut v: Vec<char> = Vec::new();
    for c in it: s.chars()
        invariant
            v@ == it.seq().take(it.index() as int),
            it.seq() == s@,
    {
        v.push(c);
    }
    v
}

/// Whether the characters from `from` up to `to` form a name part.
fn name_part_at(v: &Vec<char>, from: usize, to: usize) -> (b: bool)
    requires
        from <= to <= v.len(),
    ensures
        b == is_name_part(v@.subrange(from as int, to as int)),
{
    let ghost part = v@.subrange(from as int, to as int);
    if from == to {
        return false;
    }
    if !name_start_char(v[from]) {
        return false;
    }
    let mut i: usize = from;
    while i < to
        invariant
            from <= i <= to <= v.len(),
            part == v@.subrange(from as int, to as int),
            forall|j: int| 0 <= j < i - from ==> is_name_char(#[trigger] part[j]),
        decreases to - i,
    {
        if !name_char(v[i]) {
            assert(part[i - from] == v[i as int]);
            return false;
        }
        i += 1;
    }
    true
}

/// The place of the first colon, if there is one.
fn first_colon(v: &Vec<char>) -> (r: Option<usize>)
    ensures
        match r {
            Some(k) => v@.index_of_first(':') == Some(k as int) && k < v.len(),
            None => v@.index_of_first(':') is None,
        },
{
    let mut i: usize = 0;
    while i < v.len()
        invariant
            i <= v.len(),
            forall|j: int| 0 <= j < i ==> v[j] != ':',
        decreases v.len() - i,
    {
        if v[i] == ':' {
            proof {
                v@.index_of_first_ensures(':');
                assert(v@[i as int] == ':');
            }
            return Some(i);
        }
        i += 1;
    }
    proof {
        v@.index_of_first_ensures(':');
    }
    None
}

/// A name of an element, an attribute or another node.
pub struct Name {
    prefix: Option<String>,
    local_name: String,
    namespace_uri: Option<String>,
}

impl View for Name {
    type V = NameView;

    closed spec fn view(&self) -> NameView {
        NameView {
            prefix: opt_str_view(self.prefix),
            local_name: self.local_name@,
            namespace_uri: opt_str_view(self.namespace_uri),
        }
    }
}

/// An owned copy of an optional string.
pub(crate) fn copy_opt_string(s: &Option<String>) -> (r: Option<String>)
    ensures
        opt_str_view(r) == opt_str_view(*s),
{
    match s {
        Some(t) => Some(t.clone()),
        None => None,
    }
}

/// An owned copy of an optional string slice.
pub(crate) fn own_opt_str(s: Option<&str>) -> (r: Option<String>)
    ensures
        match s {
            Some(t) => r is Some && r->0@ == t@,
            None => r is None,
        },
{
    match s {
        Some(t) => Some(t.to_string()),
        None => None,
    }
}

impl Name {
    /// Reads a simple or prefixed name. A string that spells no name is a
    /// syntax error.
    pub fn from_str(value: &str) -> (res: Result<Name, Error>)
        ensures
            match parse_name(value@) {
                Some(n) => res is Ok && res->Ok_0@ == n,
                None => res == Err::<Name, Error>(Error::Syntax),
            },
    {
        let v = chars_of(value);
        match first_colon(&v) {
            Some(k) => {
                if name_part_at(&v, 0, k) && name_part_at(&v, k + 1, v.len()) {
                    let prefix = value.substring_char(0, k).to_string();
                    let local_name = value.substring_char(k + 1, v.len()).to_string();
                    Ok(Name { prefix: Some(prefix), local_name, namespace_uri: None })
                } else {
                    Err(Error::Syntax)
                }
            },
            None => {
                if name_part_at(&v, 0, v.len()) {
                    assert(v@.subrange(0, v.len() as int) =~= value@);
                    Ok(Name { prefix: None, local_name: value.to_string(), namespace_uri: None })
                } else {
                    assert(v@.subrange(0, v.len() as int) =~= value@);
                    Err(Error::Syntax)
                }
            },
        }
    }

    /// Reads a qualified name and binds it to a namespace.
    pub fn new_ns(namespace_uri: &str, qualified_name: &str) -> (res: Result<Name, Error>)
        ensures
            match parse_name_ns(namespace_uri@, qualified_name@) {
                Some(n) => res is Ok && res->Ok_0@ == n,
                None => res == Err::<Name, Error>(Error::Syntax),
            },
    {
        match Name::from_str(qualified_name) {
            Ok(parsed) => Ok(
                Name {
                    prefix: parsed.prefix,
                    local_name: parsed.local_name,
                    namespace_uri: Some(namespace_uri.to_string()),
                },
            ),
            Err(e) => Err(e),
        }
    }

    /// A name with the given local part and nothing else. The part is taken
    /// as it is: this is how the fixed names of text-like nodes are made.
    pub fn unqualified(local_name: &str) -> (res: Name)
        ensures
            res@ == (NameView { prefix: None, local_name: local_name@, namespace_uri: None }),
    {
        Name { prefix: None, local_name: local_name.to_string(), namespace_uri: None }
    }

    pub fn prefix(&self) -> (r: &Option<String>)
        ensures
            opt_str_view(*r) == self@.prefix,
    {
        &self.prefix
    }

    pub fn local_name(&self) -> (r: &String)
        ensures
            r@ == self@.local_name,
    {
        &self.local_name
    }

    pub fn namespace_uri(&self) -> (r: &Option<String>)
        ensures
            opt_str_view(*r) == self@.namespace_uri,
    {
        &self.namespace_uri
    }

    /// The qualified form of the name.
    pub fn to_string(&self) -> (r: String)
        ensures
            r@ == self@.qualified(),
    {
        match &self.prefix {
            Some(p) => {
                let mut r = p.clone();
                proof {
                    reveal_strlit(":");
                }
                r.append(":");
                r.append(self.local_name.as_str());
                assert(r@ =~= self@.qualified());
                r
            },
            None => self.local_name.clone(),
        }
    }

    /// Whether the name declares a namespace.
    pub fn is_namespace_attribute(&self) -> (r: bool)
        ensures
            r == self@.is_namespace_attribute(),
    {
        let x = "xmlns".to_string();
        proof {
            reveal_strlit("xmlns");
            assert(x@ =~= xmlns());
        }
        match &self.prefix {
            Some(p) => *p == x,
            None => self.local_name == x,
        }
    }

    /// Whether an attribute of this name carries an ID. The local part decides
    /// in the strict mode and in the permissive mode alike.
    pub fn is_id_attribute(&self, lax: bool) -> (r: bool)
        ensures
            r == self@.is_id_attribute(),
    {
        let x = "id".to_string();
        proof {
            reveal_strlit("id");
            assert(x@ =~= seq!['i', 'd']);
        }
        self.local_name == x
    }

    /// Whether two names have the same qualified form.
    pub fn same_as(&self, other: &Name) -> (r: bool)
        ensures
            r == (self@.qualified() == other@.qualified()),
    {
        self.to_string() == other.to_string()
    }
}

impl Clone for Name {
    fn clone(&self) -> (r: Name)
        ensures
            r@ == self@,
    {
        Name {
            prefix: copy_opt_string(&self.prefix),
            local_name: self.local_name.clone(),
            namespace_uri: copy_opt_string(&self.namespace_uri),
        }
    }
}

} // verus!
