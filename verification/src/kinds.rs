//! The small vocabularies of a match: what it looks at, how it compares, and
//! where the traffic goes.

use crate::error::Error;
use crate::text::same_text;
use vstd::prelude::*;

verus! {

/// What a match looks at.
#[allow(non_camel_case_types)]
#[derive(Clone, Copy, Debug, PartialEq, Eq, Structural)]
pub enum Kind {
    /// The last component of the executable's path.
    basename,
    /// The whole path of the executable.
    path,
    /// The destination address.
    ipv4,
    /// The domain name that the destination was resolved from.
    dns,
}

impl Kind {
    /// The name under which the variant is written.
    pub open spec fn spelling(self) -> Seq<char> {
        match self {
            Kind::basename => "basename"@,
            Kind::path => "path"@,
            Kind::ipv4 => "ipv4"@,
            Kind::dns => "dns"@,
        }
    }

    /// No two variants are written alike.
    pub proof fn spelling_injective(a: Kind, b: Kind)
        requires
            a.spelling() == b.spelling(),
        ensures
            a == b,
    {
        reveal_strlit("basename");
        reveal_strlit("path");
        reveal_strlit("ipv4");
        reveal_strlit("dns");
        assert("basename"@.len() != "path"@.len());
        assert("basename"@.len() != "ipv4"@.len());
        assert("basename"@.len() != "dns"@.len());
        assert("path"@[0] != "ipv4"@[0]);
        assert("path"@.len() != "dns"@.len());
        assert("ipv4"@.len() != "dns"@.len());
    }

    /// The name under which the variant is written.
    pub fn name(self) -> (r: &'static str)
        ensures
            r@ == self.spelling(),
    {
        match self {
            Kind::basename => "basename",
            Kind::path => "path",
            Kind::ipv4 => "ipv4",
            Kind::dns => "dns",
        }
    }

    /// Reads a variant from its name.
    pub fn from_str(s: &str) -> (r: Result<Kind, Error>)
        ensures
            r matches Ok(v) ==> s@ == v.spelling(),
            r matches Err(e) ==> (e matches Error::UnknownKind(t) && t@ == s@) && forall|v: Kind|
                s@ != #[trigger] v.spelling(),
    {
        if same_text(s, "basename") {
            Ok(Kind::basename)
        } else if same_text(s, "path") {
            Ok(Kind::path)
        } else if same_text(s, "ipv4") {
            Ok(Kind::ipv4)
        } else if same_text(s, "dns") {
            Ok(Kind::dns)
        } else {
            Err(Error::UnknownKind(s.to_owned()))
        }
    }
}

impl Default for Kind {
    fn default() -> (r: Self)
        ensures
            r == Kind::basename,
    {
        Kind::basename
    }
}

/// How a match compares its pattern.
#[allow(non_camel_case_types)]
#[derive(Clone, Copy, Debug, PartialEq, Eq, Structural)]
pub enum Method {
    /// The whole text.
    full,
    /// Any part of the text.
    substring,
    /// The beginning of the text.
    prefix,
    /// The end of the text.
    suffix,
    /// The pattern is a regular expression.
    regex,
    /// The pattern is a network.
    subnet,
}

impl Method {
    /// The name under which the variant is written.
    pub open spec fn spelling(self) -> Seq<char> {
        match self {
            Method::full => "full"@,
            Method::substring => "substring"@,
            Method::prefix => "prefix"@,
            Method::suffix => "suffix"@,
            Method::regex => "regex"@,
            Method::subnet => "subnet"@,
        }
    }

    /// No two variants are written alike.
    pub proof fn spelling_injective(a: Method, b: Method)
        requires
            a.spelling() == b.spelling(),
        ensures
            a == b,
    {
        reveal_strlit("full");
        reveal_strlit("substring");
        reveal_strlit("prefix");
        reveal_strlit("suffix");
        reveal_strlit("regex");
        reveal_strlit("subnet");
        assert("full"@.len() != "substring"@.len());
        assert("full"@.len() != "prefix"@.len());
        assert("full"@.len() != "suffix"@.len());
        assert("full"@.len() != "regex"@.len());
        assert("full"@.len() != "subnet"@.len());
        assert("substring"@.len() != "prefix"@.len());
        assert("substring"@.len() != "suffix"@.len());
        assert("substring"@.len() != "regex"@.len());
        assert("substring"@.len() != "subnet"@.len());
        assert("prefix"@[0] != "suffix"@[0]);
        assert("prefix"@.len() != "regex"@.len());
        assert("prefix"@[0] != "subnet"@[0]);
        assert("suffix"@.len() != "regex"@.len());
        assert("suffix"@[2] != "subnet"@[2]);
        assert("regex"@.len() != "subnet"@.len());
    }

    /// The name under which the variant is written.
    pub fn name(self) -> (r: &'static str)
        ensures
            r@ == self.spelling(),
    {
        match self {
            Method::full => "full",
            Method::substring => "substring",
            Method::prefix => "prefix",
            Method::suffix => "suffix",
            Method::regex => "regex",
            Method::subnet => "subnet",
        }
    }

    /// Reads a variant from its name.
    pub fn from_str(s: &str) -> (r: Result<Method, Error>)
        ensures
            r matches Ok(v) ==> s@ == v.spelling(),
            r matches Err(e) ==> (e matches Error::UnknownMethod(t) && t@ == s@) && forall|v: Method|
                s@ != #[trigger] v.spelling(),
    {
        if same_text(s, "full") {
            Ok(Method::full)
        } else if same_text(s, "substring") {
            Ok(Method::substring)
        } else if same_text(s, "prefix") {
            Ok(Method::prefix)
        } else if same_text(s, "suffix") {
            Ok(Method::suffix)
        } else if same_text(s, "regex") {
            Ok(Method::regex)
        } else if same_text(s, "subnet") {
            Ok(Method::subnet)
        } else {
            Err(Error::UnknownMethod(s.to_owned()))
        }
    }
}

impl Default for Method {
    fn default() -> (r: Self)
        ensures
            r == Method::full,
    {
        Method::full
    }
}

/// Where matched traffic goes.
#[allow(non_camel_case_types)]
#[derive(Clone, Copy, Debug, PartialEq, Eq, Structural)]
pub enum Direction {
    /// Out of the configured interface.
    redirect,
    /// Out of the default route.
    bypass,
}

impl Direction {
    /// The name under which the variant is written.
    pub open spec fn spelling(self) -> Seq<char> {
        match self {
            Direction::redirect => "redirect"@,
            Direction::bypass => "bypass"@,
        }
    }

    /// No two variants are written alike.
    pub proof fn spelling_injective(a: Direction, b: Direction)
        requires
            a.spelling() == b.spelling(),
        ensures
            a == b,
    {
        reveal_strlit("redirect");
        reveal_strlit("bypass");
        assert("redirect"@.len() != "bypass"@.len());
    }

    /// The name under which the variant is written.
    pub fn name(self) -> (r: &'static str)
        ensures
            r@ == self.spelling(),
    {
        match self {
            Direction::redirect => "redirect",
            Direction::bypass => "bypass",
        }
    }

    /// Reads a variant from its name.
    pub fn from_str(s: &str) -> (r: Result<Direction, Error>)
        ensures
            r matches Ok(v) ==> s@ == v.spelling(),
            r matches Err(e) ==> (e matches Error::UnknownDirection(t) && t@ == s@) && forall|v: Direction|
                s@ != #[trigger] v.spelling(),
    {
        if same_text(s, "redirect") {
            Ok(Direction::redirect)
        } else if same_text(s, "bypass") {
            Ok(Direction::bypass)
        } else {
            Err(Error::UnknownDirection(s.to_owned()))
        }
    }
}

impl Default for Direction {
    fn default() -> (r: Self)
        ensures
            r == Direction::redirect,
    {
        Direction::redirect
    }
}

} // verus!
