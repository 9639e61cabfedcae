use vstd::prelude::*;

verus! {

/// The HTTP request methods that routes can be registered for.
#[derive(PartialEq, Eq, Structural, Clone, Copy, Debug)]
pub enum MethodType {
    GET,
    POST,
    PUT,
    DELETE,
    CONNECT,
    OPTIONS,
    TRACE,
    PATCH,
}

/// Why a method name could not be read.
#[derive(PartialEq, Eq, Structural, Clone, Copy, Debug)]
pub enum MethodParseError {
    /// The text is not the name of any method.
    VariantNotFound,
}

/// The name of a method: the name of its variant.
pub open spec fn method_name(m: MethodType) -> Seq<char> {
    match m {
        MethodType::GET => "GET"@,
        MethodType::POST => "POST"@,
        MethodType::PUT => "PUT"@,
        MethodType::DELETE => "DELETE"@,
        MethodType::CONNECT => "CONNECT"@,
        MethodType::OPTIONS => "OPTIONS"@,
        MethodType::TRACE => "TRACE"@,
        MethodType::PATCH => "PATCH"@,
    }
}

/// The number of method slots.
pub const METHOD_COUNT: usize = 8;

/// The position of a method when methods are listed by name.
pub open spec fn method_slot(m: MethodType) -> nat {
    match m {
        MethodType::CONNECT => 0,
        MethodType::DELETE => 1,
        MethodType::GET => 2,
        MethodType::OPTIONS => 3,
        MethodType::PATCH => 4,
        MethodType::POST => 5,
        MethodType::PUT => 6,
        MethodType::TRACE => 7,
    }
}

/// The method at a position of the listing by name.
pub open spec fn method_at_slot(i: nat) -> MethodType {
    if i == 0 {
        MethodType::CONNECT
    } else if i == 1 {
        MethodType::DELETE
    } else if i == 2 {
        MethodType::GET
    } else if i == 3 {
        MethodType::OPTIONS
    } else if i == 4 {
        MethodType::PATCH
    } else if i == 5 {
        MethodType::POST
    } else if i == 6 {
        MethodType::PUT
    } else {
        MethodType::TRACE
    }
}

/// Slots and methods correspond one to one.
pub proof fn lemma_method_slots()
    ensures
        forall|m: MethodType| #[trigger] method_slot(m) < METHOD_COUNT,
        forall|m: MethodType| method_at_slot(#[trigger] method_slot(m)) == m,
        forall|i: nat| i < METHOD_COUNT ==> method_slot(#[trigger] method_at_slot(i)) == i,
{
}

/// Different methods have different names.
pub proof fn lemma_method_names_distinct()
    ensures
        forall|a: MethodType, b: MethodType| #[trigger] method_name(a) == #[trigger] method_name(b) ==> a == b,
{
    reveal_strlit("GET");
    reveal_strlit("POST");
    reveal_strlit("PUT");
    reveal_strlit("DELETE");
    reveal_strlit("CONNECT");
    reveal_strlit("OPTIONS");
    reveal_strlit("TRACE");
    reveal_strlit("PATCH");
    assert forall|a: MethodType, b: MethodType| #[trigger] method_name(a) == #[trigger] method_name(b) implies a == b by {
        if a != b {
            let x = method_name(a);
            let y = method_name(b);
            assert(x.len() != y.len() || x[0] != y[0] || x[1] != y[1]);
        }
    }
}

/// The method whose name is `s`, if any.
pub open spec fn method_named(s: Seq<char>) -> Option<MethodType> {
    if exists|m: MethodType| method_name(m) == s {
        Some(choose|m: MethodType| method_name(m) == s)
    } else {
        None
    }
}

impl MethodType {
    /// The name of the method (`"GET"` for `GET`).
    pub fn to_string(&self) -> (s: String)
        ensures
            s@ == method_name(*self),
    {
        match self {
            MethodType::GET => "GET".to_owned(),
            MethodType::POST => "POST".to_owned(),
            MethodType::PUT => "PUT".to_owned(),
            MethodType::DELETE => "DELETE".to_owned(),
            MethodType::CONNECT => "CONNECT".to_owned(),
            MethodType::OPTIONS => "OPTIONS".to_owned(),
            MethodType::TRACE => "TRACE".to_owned(),
            MethodType::PATCH => "PATCH".to_owned(),
        }
    }

    /// Reads a method from its exact (case-sensitive) name.
    pub fn from_str(s: &str) -> (r: Result<MethodType, MethodParseError>)
        ensures
            r matches Ok(m) ==> method_named(s@) == Some(m),
            r is Err ==> method_named(s@) is None,
            match r {
                Ok(m) => s@ == method_name(m),
                Err(e) => e == MethodParseError::VariantNotFound && forall|m: MethodType|
                    s@ != #[trigger] method_name(m),
            },
    {
        let text = s.to_owned();
        let mut i: usize = 0;
        while i < METHOD_COUNT
            invariant
                text@ == s@,
                i <= METHOD_COUNT,
                forall|j: nat| j < i ==> s@ != #[trigger] method_name(method_at_slot(j)),
            decreases METHOD_COUNT - i,
        {
            let m = MethodType::from_slot(i);
            if text == m.to_string() {
                proof {
                    lemma_method_names_distinct();
                }
                return Ok(m);
            }
            i = i + 1;
        }
        proof {
            lemma_method_slots();
            assert forall|m: MethodType| s@ != #[trigger] method_name(m) by {
                assert(method_at_slot(method_slot(m)) == m);
            }
        }
        Err(MethodParseError::VariantNotFound)
    }

    /// The position of the method when methods are listed by name.
    pub fn slot(&self) -> (i: usize)
        ensures
            i == method_slot(*self),
    {
        match self {
            MethodType::CONNECT => 0,
            MethodType::DELETE => 1,
            MethodType::GET => 2,
            MethodType::OPTIONS => 3,
            MethodType::PATCH => 4,
            MethodType::POST => 5,
            MethodType::PUT => 6,
            MethodType::TRACE => 7,
        }
    }

    /// The method at position `i` of the listing by name.
    pub fn from_slot(i: usize) -> (m: MethodType)
        requires
            i < METHOD_COUNT,
        ensures
            m == method_at_slot(i as nat),
    {
        if i == 0 {
            MethodType::CONNECT
        } else if i == 1 {
            MethodType::DELETE
        } else if i == 2 {
            MethodType::GET
        } else if i == 3 {
            MethodType::OPTIONS
        } else if i == 4 {
            MethodType::PATCH
        } else if i == 5 {
            MethodType::POST
        } else if i == 6 {
            MethodType::PUT
        } else {
            MethodType::TRACE
        }
    }
}

} // verus!
