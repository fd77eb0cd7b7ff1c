use vstd::prelude::*;

use crate::lexing::ascii::{ascii_bytes, bytes_eq, literal_bytes};

verus! {

/// Built-in functions of two arguments that apply element-wise to lists.
#[derive(PartialEq, Eq, Structural, Debug, Copy, Clone)]
pub enum DyadicPervasive {
    Mod,
    Gcd,
    Lcm,
}

impl DyadicPervasive {
    /// The name under which the function is written.
    pub open spec fn name(self) -> Seq<char> {
        match self {
            DyadicPervasive::Mod => seq!['m', 'o', 'd'],
            DyadicPervasive::Gcd => seq!['g', 'c', 'd'],
            DyadicPervasive::Lcm => seq!['l', 'c', 'm'],
        }
    }

    /// The name as a static string.
    pub fn text(&self) -> (r: &'static str)
        ensures
            r@ == self.name(),
    {
        match self {
            DyadicPervasive::Mod => {
                proof {
                    reveal_strlit("mod");
                }
                "mod"
            },
            DyadicPervasive::Gcd => {
                proof {
                    reveal_strlit("gcd");
                }
                "gcd"
            },
            DyadicPervasive::Lcm => {
                proof {
                    reveal_strlit("lcm");
                }
                "lcm"
            },
        }
    }

    pub fn as_str(&self) -> (r: &'static str)
        ensures
            r@ == self.name(),
    {
        self.text()
    }

    /// The function named `w`, if any.
    pub open spec fn named(w: Seq<u8>) -> Option<Self> {
        if exists|f: Self| ascii_bytes(#[trigger] f.name()) == w {
            Some(choose|f: Self| ascii_bytes(#[trigger] f.name()) == w)
        } else {
            None
        }
    }

    /// Two functions with the same name are the same function.
    pub proof fn lemma_names_distinct(a: Self, b: Self)
        requires
            ascii_bytes(a.name()) == ascii_bytes(b.name()),
        ensures
            a == b,
    {
        let (na, nb) = (ascii_bytes(a.name()), ascii_bytes(b.name()));
        assert(na.len() == nb.len());
        assert(na[0] == nb[0]);
        assert(na[1] == nb[1]);
        assert(na.len() >= 3 ==> na[2] == nb[2]);
    }

    /// Looking a function up by its name finds that function.
    pub proof fn lemma_name_lookup(f: Self)
        ensures
            Self::named(ascii_bytes(f.name())) == Some(f),
    {
        let g = choose|g: Self| ascii_bytes(#[trigger] g.name()) == ascii_bytes(f.name());
        Self::lemma_names_distinct(f, g);
    }

    /// The function whose name is `input`, if there is one.
    pub fn from_str(input: &[u8]) -> (r: Option<Self>)
        ensures
            r == Self::named(input@),
            r matches Some(f) ==> input@ == ascii_bytes(f.name()),
    {
        let found = if bytes_eq(input, literal_bytes(DyadicPervasive::Mod.text())) {
            Some(DyadicPervasive::Mod)
        } else if bytes_eq(input, literal_bytes(DyadicPervasive::Gcd.text())) {
            Some(DyadicPervasive::Gcd)
        } else if bytes_eq(input, literal_bytes(DyadicPervasive::Lcm.text())) {
            Some(DyadicPervasive::Lcm)
        } else {
            None
        };
        proof {
            if let Some(f) = found {
                Self::lemma_name_lookup(f);
            }
        }
        found
    }
}

} // verus!
