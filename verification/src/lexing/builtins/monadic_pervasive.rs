use vstd::prelude::*;

use crate::lexing::ascii::{ascii_bytes, bytes_eq, literal_bytes};

verus! {

/// Built-in functions of one argument that apply element-wise to lists.
#[derive(PartialEq, Eq, Structural, Debug, Copy, Clone)]
pub enum MonadicPervasive {
    Sin,
    Cos,
    Tan,
    Ln,
    Log,
    Exp,
    Floor,
    Ceil,
    Round,
    Sign,
}

impl MonadicPervasive {
    /// The name under which the function is written.
    pub open spec fn name(self) -> Seq<char> {
        match self {
            MonadicPervasive::Sin => seq!['s', 'i', 'n'],
            MonadicPervasive::Cos => seq!['c', 'o', 's'],
            MonadicPervasive::Tan => seq!['t', 'a', 'n'],
            MonadicPervasive::Ln => seq!['l', 'n'],
            MonadicPervasive::Log => seq!['l', 'o', 'g'],
            MonadicPervasive::Exp => seq!['e', 'x', 'p'],
            MonadicPervasive::Floor => seq!['f', 'l', 'o', 'o', 'r'],
            MonadicPervasive::Ceil => seq!['c', 'e', 'i', 'l'],
            MonadicPervasive::Round => seq!['r', 'o', 'u', 'n', 'd'],
            MonadicPervasive::Sign => seq!['s', 'i', 'g', 'n'],
        }
    }

    /// The name as a static string.
    pub fn text(&self) -> (r: &'static str)
        ensures
            r@ == self.name(),
    {
        match self {
            MonadicPervasive::Sin => {
                proof {
                    reveal_strlit("sin");
                }
                "sin"
            },
            MonadicPervasive::Cos => {
                proof {
                    reveal_strlit("cos");
                }
                "cos"
            },
            MonadicPervasive::Tan => {
                proof {
                    reveal_strlit("tan");
                }
                "tan"
            },
            MonadicPervasive::Ln => {
                proof {
                    reveal_strlit("ln");
                }
                "ln"
            },
            MonadicPervasive::Log => {
                proof {
                    reveal_strlit("log");
                }
                "log"
            },
            MonadicPervasive::Exp => {
                proof {
                    reveal_strlit("exp");
                }
                "exp"
            },
            MonadicPervasive::Floor => {
                proof {
                    reveal_strlit("floor");
                }
                "floor"
            },
            MonadicPervasive::Ceil => {
                proof {
                    reveal_strlit("ceil");
                }
                "ceil"
            },
            MonadicPervasive::Round => {
                proof {
                    reveal_strlit("round");
                }
                "round"
            },
            MonadicPervasive::Sign => {
                proof {
                    reveal_strlit("sign");
                }
                "sign"
            },
        }
    }

    pub fn as_str(&self) -> (r: &'static str)
        ensures
            r@ == self.name(),
    {
        self.text()
    }

    /// The function named `w`, if any.
    pub open spec fn named(w: Seq<u8>) -> Option<Self> {
        if exists|f: Self| ascii_bytes(#[trigger] f.name()) == w {
            Some(choose|f: Self| ascii_bytes(#[trigger] f.name()) == w)
        } else {
            None
        }
    }

    /// Two functions with the same name are the same function.
    pub proof fn lemma_names_distinct(a: Self, b: Self)
        requires
            ascii_bytes(a.name()) == ascii_bytes(b.name()),
        ensures
            a == b,
    {
        let (na, nb) = (ascii_bytes(a.name()), ascii_bytes(b.name()));
        assert(na.len() == nb.len());
        assert(na[0] == nb[0]);
        assert(na[1] == nb[1]);
        assert(na.len() >= 3 ==> na[2] == nb[2]);
    }

    /// Looking a function up by its name finds that function.
    pub proof fn lemma_name_lookup(f: Self)
        ensures
            Self::named(ascii_bytes(f.name())) == Some(f),
    {
        let g = choose|g: Self| ascii_bytes(#[trigger] g.name()) == ascii_bytes(f.name());
        Self::lemma_names_distinct(f, g);
    }

    /// The function whose name is `input`, if there is one.
    pub fn from_str(input: &[u8]) -> (r: Option<Self>)
        ensures
            r == Self::named(input@),
            r matches Some(f) ==> input@ == ascii_bytes(f.name()),
    {
        let found = if bytes_eq(input, literal_bytes(MonadicPervasive::Sin.text())) {
            Some(MonadicPervasive::Sin)
        } else if bytes_eq(input, literal_bytes(MonadicPervasive::Cos.text())) {
            Some(MonadicPervasive::Cos)
        } else if bytes_eq(input, literal_bytes(MonadicPervasive::Tan.text())) {
            Some(MonadicPervasive::Tan)
        } else if bytes_eq(input, literal_bytes(MonadicPervasive::Ln.text())) {
            Some(MonadicPervasive::Ln)
        } else if bytes_eq(input, literal_bytes(MonadicPervasive::Log.text())) {
            Some(MonadicPervasive::Log)
        } else if bytes_eq(input, literal_bytes(MonadicPervasive::Exp.text())) {
            Some(MonadicPervasive::Exp)
        } else if bytes_eq(input, literal_bytes(MonadicPervasive::Floor.text())) {
            Some(MonadicPervasive::Floor)
        } else if bytes_eq(input, literal_bytes(MonadicPervasive::Ceil.text())) {
            Some(MonadicPervasive::Ceil)
        } else if bytes_eq(input, literal_bytes(MonadicPervasive::Round.text())) {
            Some(MonadicPervasive::Round)
        } else if bytes_eq(input, literal_bytes(MonadicPervasive::Sign.text())) {
            Some(MonadicPervasive::Sign)
        } else {
            None
        };
        proof {
            if let Some(f) = found {
                Self::lemma_name_lookup(f);
            }
        }
        found
    }
}

} // verus!
