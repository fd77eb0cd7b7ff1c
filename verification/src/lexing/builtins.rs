use vstd::prelude::*;

mod dyadic_pervasive;
mod monadic_pervasive;

pub use dyadic_pervasive::DyadicPervasive;
pub use monadic_pervasive::MonadicPervasive;

use crate::lexing::ascii::{ascii_bytes, bytes_eq, is_alpha, literal_bytes};

verus! {

/// Statistics that reduce a list to one number.
#[derive(PartialEq, Eq, Structural, Debug, Copy, Clone)]
pub enum ListStat {
    Mean,
    Min,
    Max,
    Total,
}

impl ListStat {
    /// The name under which the function is written.
    pub open spec fn name(self) -> Seq<char> {
        match self {
            ListStat::Mean => seq!['m', 'e', 'a', 'n'],
            ListStat::Min => seq!['m', 'i', 'n'],
            ListStat::Max => seq!['m', 'a', 'x'],
            ListStat::Total => seq!['t', 'o', 't', 'a', 'l'],
        }
    }

    /// The name as a static string.
    pub fn text(&self) -> (r: &'static str)
        ensures
            r@ == self.name(),
    {
        match self {
            ListStat::Mean => {
                proof {
                    reveal_strlit("mean");
                }
                "mean"
            },
            ListStat::Min => {
                proof {
                    reveal_strlit("min");
                }
                "min"
            },
            ListStat::Max => {
                proof {
                    reveal_strlit("max");
                }
                "max"
            },
            ListStat::Total => {
                proof {
                    reveal_strlit("total");
                }
                "total"
            },
        }
    }

    pub fn as_str(&self) -> (r: &'static [u8])
        ensures
            r@ == ascii_bytes(self.name()),
    {
        let text = self.text();
        literal_bytes(text)
    }

    /// The function named `w`, if any.
    pub open spec fn named(w: Seq<u8>) -> Option<Self> {
        if exists|f: Self| ascii_bytes(#[trigger] f.name()) == w {
            Some(choose|f: Self| ascii_bytes(#[trigger] f.name()) == w)
        } else {
            None
        }
    }

    /// Two functions with the same name are the same function.
    pub proof fn lemma_names_distinct(a: Self, b: Self)
        requires
            ascii_bytes(a.name()) == ascii_bytes(b.name()),
        ensures
            a == b,
    {
        let (na, nb) = (ascii_bytes(a.name()), ascii_bytes(b.name()));
        assert(na.len() == nb.len());
        assert(na[0] == nb[0]);
        assert(na[1] == nb[1]);
        assert(na.len() >= 3 ==> na[2] == nb[2]);
    }

    /// Looking a function up by its name finds that function.
    pub proof fn lemma_name_lookup(f: Self)
        ensures
            Self::named(ascii_bytes(f.name())) == Some(f),
    {
        let g = choose|g: Self| ascii_bytes(#[trigger] g.name()) == ascii_bytes(f.name());
        Self::lemma_names_distinct(f, g);
    }

    /// The function whose name is `input`, if there is one.
    pub fn from_str(input: &[u8]) -> (r: Option<Self>)
        ensures
            r == Self::named(input@),
            r matches Some(f) ==> input@ == ascii_bytes(f.name()),
    {
        let found = if bytes_eq(input, literal_bytes(ListStat::Mean.text())) {
            Some(ListStat::Mean)
        } else if bytes_eq(input, literal_bytes(ListStat::Min.text())) {
            Some(ListStat::Min)
        } else if bytes_eq(input, literal_bytes(ListStat::Max.text())) {
            Some(ListStat::Max)
        } else if bytes_eq(input, literal_bytes(ListStat::Total.text())) {
            Some(ListStat::Total)
        } else {
            None
        };
        proof {
            if let Some(f) = found {
                Self::lemma_name_lookup(f);
            }
        }
        found
    }
}

/// Built-in functions of one list argument that act on the list as a whole.
#[derive(PartialEq, Eq, Structural, Debug, Copy, Clone)]
pub enum MonadicNonPervasive {
    Length,
    Unique,
}

impl MonadicNonPervasive {
    /// The name under which the function is written.
    pub open spec fn name(self) -> Seq<char> {
        match self {
            MonadicNonPervasive::Length => seq!['l', 'e', 'n', 'g', 't', 'h'],
            MonadicNonPervasive::Unique => seq!['u', 'n', 'i', 'q', 'u', 'e'],
        }
    }

    /// The name as a static string.
    pub fn text(&self) -> (r: &'static str)
        ensures
            r@ == self.name(),
    {
        match self {
            MonadicNonPervasive::Length => {
                proof {
                    reveal_strlit("length");
                }
                "length"
            },
            MonadicNonPervasive::Unique => {
                proof {
                    reveal_strlit("unique");
                }
                "unique"
            },
        }
    }

    pub fn as_str(&self) -> (r: &'static [u8])
        ensures
            r@ == ascii_bytes(self.name()),
    {
        let text = self.text();
        literal_bytes(text)
    }

    /// The function named `w`, if any.
    pub open spec fn named(w: Seq<u8>) -> Option<Self> {
        if exists|f: Self| ascii_bytes(#[trigger] f.name()) == w {
            Some(choose|f: Self| ascii_bytes(#[trigger] f.name()) == w)
        } else {
            None
        }
    }

    /// Two functions with the same name are the same function.
    pub proof fn lemma_names_distinct(a: Self, b: Self)
        requires
            ascii_bytes(a.name()) == ascii_bytes(b.name()),
        ensures
            a == b,
    {
        let (na, nb) = (ascii_bytes(a.name()), ascii_bytes(b.name()));
        assert(na.len() == nb.len());
        assert(na[0] == nb[0]);
        assert(na[1] == nb[1]);
        assert(na.len() >= 3 ==> na[2] == nb[2]);
    }

    /// Looking a function up by its name finds that function.
    pub proof fn lemma_name_lookup(f: Self)
        ensures
            Self::named(ascii_bytes(f.name())) == Some(f),
    {
        let g = choose|g: Self| ascii_bytes(#[trigger] g.name()) == ascii_bytes(f.name());
        Self::lemma_names_distinct(f, g);
    }

    /// The function whose name is `input`, if there is one.
    pub fn from_str(input: &[u8]) -> (r: Option<Self>)
        ensures
            r == Self::named(input@),
            r matches Some(f) ==> input@ == ascii_bytes(f.name()),
    {
        let found = if bytes_eq(input, literal_bytes(MonadicNonPervasive::Length.text())) {
            Some(MonadicNonPervasive::Length)
        } else if bytes_eq(input, literal_bytes(MonadicNonPervasive::Unique.text())) {
            Some(MonadicNonPervasive::Unique)
        } else {
            None
        };
        proof {
            if let Some(f) = found {
                Self::lemma_name_lookup(f);
            }
        }
        found
    }
}
/// A built-in function of the calculator language.
#[derive(PartialEq, Eq, Structural, Debug, Copy, Clone)]
pub enum Builtins {
    MonadicPervasive(MonadicPervasive),
    DyadicPervasive(DyadicPervasive),
    MonadicNonPervasive(MonadicNonPervasive),
    ListStat(ListStat),
    /// variadic, non-pervasive
    Join,
    /// monadic or dyadic, non-pervasive
    Sort,
    /// zero-adic, monadic or dyadic, non-pervasive
    Random,
}

impl Builtins {
    /// The name under which the function is written.
    pub open spec fn name(self) -> Seq<char> {
        match self {
            Builtins::MonadicPervasive(f) => f.name(),
            Builtins::DyadicPervasive(f) => f.name(),
            Builtins::MonadicNonPervasive(f) => f.name(),
            Builtins::ListStat(f) => f.name(),
            Builtins::Join => seq!['j', 'o', 'i', 'n'],
            Builtins::Sort => seq!['s', 'o', 'r', 't'],
            Builtins::Random => seq!['r', 'a', 'n', 'd', 'o', 'm'],
        }
    }

    pub fn as_str(&self) -> (r: &'static str)
        ensures
            r@ == self.name(),
    {
        match self {
            Builtins::MonadicPervasive(f) => f.as_str(),
            Builtins::DyadicPervasive(f) => f.as_str(),
            Builtins::MonadicNonPervasive(f) => f.text(),
            Builtins::ListStat(f) => f.text(),
            Builtins::Join => {
                proof {
                    reveal_strlit("join");
                }
                "join"
            },
            Builtins::Sort => {
                proof {
                    reveal_strlit("sort");
                }
                "sort"
            },
            Builtins::Random => {
                proof {
                    reveal_strlit("random");
                }
                "random"
            },
        }
    }

    /// The built-in function named `w`, if any.
    pub open spec fn named(w: Seq<u8>) -> Option<Builtins> {
        if exists|f: Builtins| ascii_bytes(#[trigger] f.name()) == w {
            Some(choose|f: Builtins| ascii_bytes(#[trigger] f.name()) == w)
        } else {
            None
        }
    }

    /// The built-in function whose name is `input`, if there is one.
    pub fn from_str(input: &[u8]) -> (r: Option<Self>)
        ensures
            r == Builtins::named(input@),
    {
        let found = if let Some(f) = MonadicPervasive::from_str(input) {
            Some(Builtins::MonadicPervasive(f))
        } else if let Some(f) = DyadicPervasive::from_str(input) {
            Some(Builtins::DyadicPervasive(f))
        } else if let Some(f) = MonadicNonPervasive::from_str(input) {
            Some(Builtins::MonadicNonPervasive(f))
        } else if let Some(f) = ListStat::from_str(input) {
            Some(Builtins::ListStat(f))
        } else if bytes_eq(input, literal_bytes(Builtins::Join.as_str())) {
            Some(Builtins::Join)
        } else if bytes_eq(input, literal_bytes(Builtins::Sort.as_str())) {
            Some(Builtins::Sort)
        } else if bytes_eq(input, literal_bytes(Builtins::Random.as_str())) {
            Some(Builtins::Random)
        } else {
            None
        };
        proof {
            if let Some(f) = found {
                let g = choose|g: Builtins| ascii_bytes(#[trigger] g.name()) == input@;
                lemma_builtin_names_distinct(f, g);
            }
            if found is None {
                assert forall|f: Self| input@ != ascii_bytes(#[trigger] f.name()) by {
                    match f {
                        Builtins::MonadicPervasive(g) => {
                            if input@ == ascii_bytes(g.name()) {
                                MonadicPervasive::lemma_name_lookup(g);
                            }
                        },
                        Builtins::DyadicPervasive(g) => {
                            if input@ == ascii_bytes(g.name()) {
                                DyadicPervasive::lemma_name_lookup(g);
                            }
                        },
                        Builtins::MonadicNonPervasive(g) => {
                            if input@ == ascii_bytes(g.name()) {
                                MonadicNonPervasive::lemma_name_lookup(g);
                            }
                        },
                        Builtins::ListStat(g) => {
                            if input@ == ascii_bytes(g.name()) {
                                ListStat::lemma_name_lookup(g);
                            }
                        },
                        _ => {},
                    }
                }
            }
        }
        found
    }
}

} // verus!

verus! {

/// Two built-in functions with the same name are the same function: every
/// name in the language stands for at most one built-in.
pub proof fn lemma_builtin_names_distinct(a: Builtins, b: Builtins)
    requires
        ascii_bytes(a.name()) == ascii_bytes(b.name()),
    ensures
        a == b,
{
    let (na, nb) = (ascii_bytes(a.name()), ascii_bytes(b.name()));
    assert(na.len() == nb.len());
    assert(na[0] == nb[0]);
    assert(na[1] == nb[1]);
}

/// Looking a built-in function up by its name finds that function: the
/// names and the lookup are inverse to each other.
pub proof fn lemma_builtin_name_lookup(b: Builtins)
    ensures
        Builtins::named(ascii_bytes(b.name())) == Some(b),
{
    let g = choose|g: Builtins| ascii_bytes(#[trigger] g.name()) == ascii_bytes(b.name());
    lemma_builtin_names_distinct(b, g);
}

/// Every name of a built-in function has at least two bytes, all of them
/// ASCII letters.
pub proof fn lemma_builtin_name_letters(b: Builtins)
    ensures
        ascii_bytes(b.name()).len() >= 2,
        forall|k: int|
            0 <= k < ascii_bytes(b.name()).len() ==> is_alpha(#[trigger] ascii_bytes(b.name())[k]),
{
}

} // verus!

verus! {

/// The table of built-in functions: each name, given as its letters, looks
/// up exactly this function.
pub proof fn lemma_builtin_names_table()
    ensures
        Builtins::named(ascii_bytes(seq!['s', 'i', 'n'])) == Some(Builtins::MonadicPervasive(MonadicPervasive::Sin)),
        Builtins::named(ascii_bytes(seq!['c', 'o', 's'])) == Some(Builtins::MonadicPervasive(MonadicPervasive::Cos)),
        Builtins::named(ascii_bytes(seq!['t', 'a', 'n'])) == Some(Builtins::MonadicPervasive(MonadicPervasive::Tan)),
        Builtins::named(ascii_bytes(seq!['l', 'n'])) == Some(Builtins::MonadicPervasive(MonadicPervasive::Ln)),
        Builtins::named(ascii_bytes(seq!['l', 'o', 'g'])) == Some(Builtins::MonadicPervasive(MonadicPervasive::Log)),
        Builtins::named(ascii_bytes(seq!['e', 'x', 'p'])) == Some(Builtins::MonadicPervasive(MonadicPervasive::Exp)),
        Builtins::named(ascii_bytes(seq!['f', 'l', 'o', 'o', 'r'])) == Some(Builtins::MonadicPervasive(MonadicPervasive::Floor)),
        Builtins::named(ascii_bytes(seq!['c', 'e', 'i', 'l'])) == Some(Builtins::MonadicPervasive(MonadicPervasive::Ceil)),
        Builtins::named(ascii_bytes(seq!['r', 'o', 'u', 'n', 'd'])) == Some(Builtins::MonadicPervasive(MonadicPervasive::Round)),
        Builtins::named(ascii_bytes(seq!['s', 'i', 'g', 'n'])) == Some(Builtins::MonadicPervasive(MonadicPervasive::Sign)),
        Builtins::named(ascii_bytes(seq!['m', 'o', 'd'])) == Some(Builtins::DyadicPervasive(DyadicPervasive::Mod)),
        Builtins::named(ascii_bytes(seq!['g', 'c', 'd'])) == Some(Builtins::DyadicPervasive(DyadicPervasive::Gcd)),
        Builtins::named(ascii_bytes(seq!['l', 'c', 'm'])) == Some(Builtins::DyadicPervasive(DyadicPervasive::Lcm)),
        Builtins::named(ascii_bytes(seq!['l', 'e', 'n', 'g', 't', 'h'])) == Some(Builtins::MonadicNonPervasive(MonadicNonPervasive::Length)),
        Builtins::named(ascii_bytes(seq!['u', 'n', 'i', 'q', 'u', 'e'])) == Some(Builtins::MonadicNonPervasive(MonadicNonPervasive::Unique)),
        Builtins::named(ascii_bytes(seq!['m', 'e', 'a', 'n'])) == Some(Builtins::ListStat(ListStat::Mean)),
        Builtins::named(ascii_bytes(seq!['m', 'i', 'n'])) == Some(Builtins::ListStat(ListStat::Min)),
        Builtins::named(ascii_bytes(seq!['m', 'a', 'x'])) == Some(Builtins::ListStat(ListStat::Max)),
        Builtins::named(ascii_bytes(seq!['t', 'o', 't', 'a', 'l'])) == Some(Builtins::ListStat(ListStat::Total)),
        Builtins::named(ascii_bytes(seq!['j', 'o', 'i', 'n'])) == Some(Builtins::Join),
        Builtins::named(ascii_bytes(seq!['s', 'o', 'r', 't'])) == Some(Builtins::Sort),
        Builtins::named(ascii_bytes(seq!['r', 'a', 'n', 'd', 'o', 'm'])) == Some(Builtins::Random),
{
    lemma_builtin_name_lookup(Builtins::MonadicPervasive(MonadicPervasive::Sin));
    assert(Builtins::MonadicPervasive(MonadicPervasive::Sin).name() == seq!['s', 'i', 'n']);
    lemma_builtin_name_lookup(Builtins::MonadicPervasive(MonadicPervasive::Cos));
    assert(Builtins::MonadicPervasive(MonadicPervasive::Cos).name() == seq!['c', 'o', 's']);
    lemma_builtin_name_lookup(Builtins::MonadicPervasive(MonadicPervasive::Tan));
    assert(Builtins::MonadicPervasive(MonadicPervasive::Tan).name() == seq!['t', 'a', 'n']);
    lemma_builtin_name_lookup(Builtins::MonadicPervasive(MonadicPervasive::Ln));
    assert(Builtins::MonadicPervasive(MonadicPervasive::Ln).name() == seq!['l', 'n']);
    lemma_builtin_name_lookup(Builtins::MonadicPervasive(MonadicPervasive::Log));
    assert(Builtins::MonadicPervasive(MonadicPervasive::Log).name() == seq!['l', 'o', 'g']);
    lemma_builtin_name_lookup(Builtins::MonadicPervasive(MonadicPervasive::Exp));
    assert(Builtins::MonadicPervasive(MonadicPervasive::Exp).name() == seq!['e', 'x', 'p']);
    lemma_builtin_name_lookup(Builtins::MonadicPervasive(MonadicPervasive::Floor));
    assert(Builtins::MonadicPervasive(MonadicPervasive::Floor).name() == seq!['f', 'l', 'o', 'o', 'r']);
    lemma_builtin_name_lookup(Builtins::MonadicPervasive(MonadicPervasive::Ceil));
    assert(Builtins::MonadicPervasive(MonadicPervasive::Ceil).name() == seq!['c', 'e', 'i', 'l']);
    lemma_builtin_name_lookup(Builtins::MonadicPervasive(MonadicPervasive::Round));
    assert(Builtins::MonadicPervasive(MonadicPervasive::Round).name() == seq!['r', 'o', 'u', 'n', 'd']);
    lemma_builtin_name_lookup(Builtins::MonadicPervasive(MonadicPervasive::Sign));
    assert(Builtins::MonadicPervasive(MonadicPervasive::Sign).name() == seq!['s', 'i', 'g', 'n']);
    lemma_builtin_name_lookup(Builtins::DyadicPervasive(DyadicPervasive::Mod));
    assert(Builtins::DyadicPervasive(DyadicPervasive::Mod).name() == seq!['m', 'o', 'd']);
    lemma_builtin_name_lookup(Builtins::DyadicPervasive(DyadicPervasive::Gcd));
    assert(Builtins::DyadicPervasive(DyadicPervasive::Gcd).name() == seq!['g', 'c', 'd']);
    lemma_builtin_name_lookup(Builtins::DyadicPervasive(DyadicPervasive::Lcm));
    assert(Builtins::DyadicPervasive(DyadicPervasive::Lcm).name() == seq!['l', 'c', 'm']);
    lemma_builtin_name_lookup(Builtins::MonadicNonPervasive(MonadicNonPervasive::Length));
    assert(Builtins::MonadicNonPervasive(MonadicNonPervasive::Length).name() == seq!['l', 'e', 'n', 'g', 't', 'h']);
    lemma_builtin_name_lookup(Builtins::MonadicNonPervasive(MonadicNonPervasive::Unique));
    assert(Builtins::MonadicNonPervasive(MonadicNonPervasive::Unique).name() == seq!['u', 'n', 'i', 'q', 'u', 'e']);
    lemma_builtin_name_lookup(Builtins::ListStat(ListStat::Mean));
    assert(Builtins::ListStat(ListStat::Mean).name() == seq!['m', 'e', 'a', 'n']);
    lemma_builtin_name_lookup(Builtins::ListStat(ListStat::Min));
    assert(Builtins::ListStat(ListStat::Min).name() == seq!['m', 'i', 'n']);
    lemma_builtin_name_lookup(Builtins::ListStat(ListStat::Max));
    assert(Builtins::ListStat(ListStat::Max).name() == seq!['m', 'a', 'x']);
    lemma_builtin_name_lookup(Builtins::ListStat(ListStat::Total));
    assert(Builtins::ListStat(ListStat::Total).name() == seq!['t', 'o', 't', 'a', 'l']);
    lemma_builtin_name_lookup(Builtins::Join);
    assert(Builtins::Join.name() == seq!['j', 'o', 'i', 'n']);
    lemma_builtin_name_lookup(Builtins::Sort);
    assert(Builtins::Sort.name() == seq!['s', 'o', 'r', 't']);
    lemma_builtin_name_lookup(Builtins::Random);
    assert(Builtins::Random.name() == seq!['r', 'a', 'n', 'd', 'o', 'm']);
}

} // verus!
