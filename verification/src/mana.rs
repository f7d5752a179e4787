//! Mana colours, the per-player mana pool, and how a pool is rendered.
use vstd::prelude::*;
use crate::text::{decimal, repeat, push_decimal, push_repeated};

verus! {

/// A colour of mana; `Colorless` is the generic kind.
#[derive(Debug, Clone, Copy, PartialEq, Eq, Structural)]
pub enum ManaType {
    White,
    Blue,
    Black,
    Red,
    Green,
    Colorless,
}

/// The six mana types in the order pools and costs are laid out.
pub open spec fn mana_order() -> Seq<ManaType> {
    seq![ManaType::White, ManaType::Blue, ManaType::Black, ManaType::Red, ManaType::Green, ManaType::Colorless]
}

/// The letter that stands for a mana type in rendered costs.
pub open spec fn mana_letter(m: ManaType) -> char {
    match m {
        ManaType::White => 'W',
        ManaType::Blue => 'U',
        ManaType::Black => 'B',
        ManaType::Red => 'R',
        ManaType::Green => 'G',
        ManaType::Colorless => 'C',
    }
}

/// The rendering of one mana symbol, such as `{W}`.
pub open spec fn mana_symbol(m: ManaType) -> Seq<char> {
    seq!['{', mana_letter(m), '}']
}

/// How many entries of `cost` are of type `m`.
pub open spec fn count_of(cost: Seq<ManaType>, m: ManaType) -> nat
    decreases cost.len(),
{
    if cost.len() == 0 {
        0
    } else {
        count_of(cost.drop_last(), m) + (if cost.last() == m { 1nat } else { 0nat })
    }
}

impl ManaType {
    /// The symbol of this mana type, such as `{W}`.
    pub fn format(&self) -> (s: String)
        ensures
            s@ == mana_symbol(*self),
    {
        proof {
            reveal_strlit("{W}");
            reveal_strlit("{U}");
            reveal_strlit("{B}");
            reveal_strlit("{R}");
            reveal_strlit("{G}");
            reveal_strlit("{C}");
        }
        match self {
            ManaType::White => "{W}".to_string(),
            ManaType::Blue => "{U}".to_string(),
            ManaType::Black => "{B}".to_string(),
            ManaType::Red => "{R}".to_string(),
            ManaType::Green => "{G}".to_string(),
            ManaType::Colorless => "{C}".to_string(),
        }
    }
}

/// The mana a player has available this phase, one counter per colour, and
/// whether a land has been played this turn.
#[derive(Debug, Clone, Copy, PartialEq, Eq, Structural)]
pub struct ManaPool {
    pub white: u8,
    pub blue: u8,
    pub black: u8,
    pub red: u8,
    pub green: u8,
    pub colorless: u8,
    pub played_card: bool,
}

impl ManaPool {
    /// The amount of mana of type `m` in the pool.
    pub open spec fn amount(self, m: ManaType) -> u8 {
        match m {
            ManaType::White => self.white,
            ManaType::Blue => self.blue,
            ManaType::Black => self.black,
            ManaType::Red => self.red,
            ManaType::Green => self.green,
            ManaType::Colorless => self.colorless,
        }
    }

    /// The pool with one more mana of type `m`.
    pub open spec fn with_added(self, m: ManaType) -> ManaPool {
        match m {
            ManaType::White => ManaPool { white: (self.white + 1) as u8, ..self },
            ManaType::Blue => ManaPool { blue: (self.blue + 1) as u8, ..self },
            ManaType::Black => ManaPool { black: (self.black + 1) as u8, ..self },
            ManaType::Red => ManaPool { red: (self.red + 1) as u8, ..self },
            ManaType::Green => ManaPool { green: (self.green + 1) as u8, ..self },
            ManaType::Colorless => ManaPool { colorless: (self.colorless + 1) as u8, ..self },
        }
    }

    /// An empty pool in which no land has been played.
    pub open spec fn empty() -> ManaPool {
        ManaPool { white: 0, blue: 0, black: 0, red: 0, green: 0, colorless: 0, played_card: false }
    }

    /// The rendered group of one colour: its letter repeated in braces.
    pub open spec fn colour_group(letter: char, n: u8) -> Seq<char> {
        seq!['{'] + repeat(seq![letter], n as nat) + seq!['}']
    }

    /// The rendered groups of a pool, in colour order, one per colour present;
    /// generic mana is shown as a count.
    pub open spec fn groups(self) -> Seq<Seq<char>> {
        let w = if self.white > 0 { seq![Self::colour_group('W', self.white)] } else { Seq::empty() };
        let u = if self.blue > 0 { seq![Self::colour_group('U', self.blue)] } else { Seq::empty() };
        let b = if self.black > 0 { seq![Self::colour_group('B', self.black)] } else { Seq::empty() };
        let r = if self.red > 0 { seq![Self::colour_group('R', self.red)] } else { Seq::empty() };
        let g = if self.green > 0 { seq![Self::colour_group('G', self.green)] } else { Seq::empty() };
        let c = if self.colorless > 0 {
            seq![seq!['{'] + decimal(self.colorless as nat) + seq!['C', '}']]
        } else {
            Seq::empty()
        };
        w + u + b + r + g + c
    }

    /// The expansion of the pool into one entry per unit of mana, in colour order.
    pub open spec fn expanded(self) -> Seq<ManaType> {
        Seq::new(self.white as nat, |i: int| ManaType::White)
            + Seq::new(self.blue as nat, |i: int| ManaType::Blue)
            + Seq::new(self.black as nat, |i: int| ManaType::Black)
            + Seq::new(self.red as nat, |i: int| ManaType::Red)
            + Seq::new(self.green as nat, |i: int| ManaType::Green)
            + Seq::new(self.colorless as nat, |i: int| ManaType::Colorless)
    }

    /// An empty pool in which no land has been played.
    pub fn new() -> (pool: Self)
        ensures
            pool == ManaPool::empty(),
    {
        ManaPool {
            white: 0,
            blue: 0,
            black: 0,
            red: 0,
            green: 0,
            colorless: 0,
            played_card: false,
        }
    }

    /// Adds one mana of the given type.
    pub fn add_mana(&mut self, mana: ManaType)
        requires
            old(self).amount(mana) < 255,
        ensures
            *final(self) == old(self).with_added(mana),
    {
        match mana {
            ManaType::White => self.white = self.white + 1,
            ManaType::Blue => self.blue = self.blue + 1,
            ManaType::Black => self.black = self.black + 1,
            ManaType::Red => self.red = self.red + 1,
            ManaType::Green => self.green = self.green + 1,
            ManaType::Colorless => self.colorless = self.colorless + 1,
        }
    }

    /// Empties every colour and keeps whether a land was played this turn.
    pub fn empty_pool(&mut self)
        ensures
            *final(self) == (ManaPool { played_card: old(self).played_card, ..ManaPool::empty() }),
    {
        let played_card = self.played_card;
        *self = ManaPool::new();
        self.played_card = played_card;
    }

    /// One entry per unit of mana in the pool, in colour order.
    pub fn to_vec(&self) -> (v: Vec<ManaType>)
        ensures
            v@ == self.expanded(),
    {
        let mut v: Vec<ManaType> = Vec::new();
        let ghost order = mana_order();
        let mut k: usize = 0;
        while k < 6
            invariant
                k <= 6,
                order == mana_order(),
                v@ == Self::expanded_prefix(*self, k as nat),
            decreases 6 - k,
        {
            let m = if k == 0 { ManaType::White } else if k == 1 { ManaType::Blue } else if k == 2 { ManaType::Black }
                else if k == 3 { ManaType::Red } else if k == 4 { ManaType::Green } else { ManaType::Colorless };
            let n = self.amount_exec(m);
            let ghost before = v@;
            let mut i: u8 = 0;
            while i < n
                invariant
                    i <= n,
                    v@ == before + Seq::new(i as nat, |j: int| m),
                decreases n - i,
            {
                v.push(m);
                i = i + 1;
                proof {
                    assert(v@ =~= before + Seq::new(i as nat, |j: int| m));
                }
            }
            k = k + 1;
            proof {
                assert(m == order[k - 1]);
                assert(v@ =~= Self::expanded_prefix(*self, k as nat));
            }
        }
        proof {
            reveal_with_fuel(ManaPool::expanded_prefix, 7);
            assert(Self::expanded_prefix(*self, 6) =~= self.expanded());
        }
        v
    }

    /// The expansion of the first `k` colours of the pool.
    pub open spec fn expanded_prefix(self, k: nat) -> Seq<ManaType>
        decreases k,
    {
        if k == 0 {
            Seq::empty()
        } else {
            let m = mana_order()[k - 1];
            Self::expanded_prefix(self, (k - 1) as nat)
                + Seq::new(self.amount(m) as nat, |j: int| m)
        }
    }

    /// The amount of mana of type `m` in the pool.
    pub fn amount_exec(&self, m: ManaType) -> (n: u8)
        ensures
            n == self.amount(m),
    {
        match m {
            ManaType::White => self.white,
            ManaType::Blue => self.blue,
            ManaType::Black => self.black,
            ManaType::Red => self.red,
            ManaType::Green => self.green,
            ManaType::Colorless => self.colorless,
        }
    }

    /// The pool rendered as its colour groups joined by single spaces, such as
    /// `{WW} {G} {3C}`; an empty pool renders as the empty string.
    pub fn format_mana(&self) -> (s: String)
        ensures
            s@ == join_groups(self.groups()),
    {
        proof {
            reveal_strlit("{");
            reveal_strlit(" ");
            reveal_strlit("C}");
            reveal_strlit("W");
            reveal_strlit("U");
            reveal_strlit("B");
            reveal_strlit("R");
            reveal_strlit("G");
        }
        let mut s = String::new();
        let ghost g0: Seq<Seq<char>> = Seq::empty();
        let any = push_colour(&mut s, Ghost(g0), "W", self.white, false);
        let ghost g1 = g0 + colour_part('W', self.white);
        let any = push_colour(&mut s, Ghost(g1), "U", self.blue, any);
        let ghost g2 = g1 + colour_part('U', self.blue);
        let any = push_colour(&mut s, Ghost(g2), "B", self.black, any);
        let ghost g3 = g2 + colour_part('B', self.black);
        let any = push_colour(&mut s, Ghost(g3), "R", self.red, any);
        let ghost g4 = g3 + colour_part('R', self.red);
        let any = push_colour(&mut s, Ghost(g4), "G", self.green, any);
        let ghost g5 = g4 + colour_part('G', self.green);
        if self.colorless > 0 {
            let ghost before = s@;
            if any {
                s.append(" ");
            }
            s.append("{");
            push_decimal(&mut s, self.colorless as u64);
            s.append("C}");
            proof {
                let grp = seq!['{'] + decimal(self.colorless as nat) + seq!['C', '}'];
                lemma_join_push(g5, grp);
                if any {
                    assert(s@ =~= before + seq![' '] + grp);
                } else {
                    assert(s@ =~= grp);
                }
                assert(g5.push(grp) =~= self.groups());
            }
        } else {
            proof {
                assert(g5 =~= self.groups());
            }
        }
        s
    }
}

/// The group of one colour as a list of zero or one groups.
pub open spec fn colour_part(letter: char, n: u8) -> Seq<Seq<char>> {
    if n > 0 { seq![ManaPool::colour_group(letter, n)] } else { Seq::empty() }
}

fn push_colour(s: &mut String, Ghost(groups): Ghost<Seq<Seq<char>>>, letter: &str, n: u8, any: bool) -> (res: bool)
    requires
        letter@.len() == 1,
        old(s)@ == join_groups(groups),
        any == (groups.len() > 0),
    ensures
        final(s)@ == join_groups(groups + colour_part(letter@[0], n)),
        res == ((groups + colour_part(letter@[0], n)).len() > 0),
{
    if n > 0 {
        push_group(s, letter, n, any);
        proof {
            lemma_join_push(groups, ManaPool::colour_group(letter@[0], n));
            assert(groups + colour_part(letter@[0], n) =~= groups.push(ManaPool::colour_group(letter@[0], n)));
        }
        true
    } else {
        proof {
            assert(groups + colour_part(letter@[0], n) =~= groups);
        }
        any
    }
}

/// Groups joined by single spaces.
pub open spec fn join_groups(groups: Seq<Seq<char>>) -> Seq<char>
    decreases groups.len(),
{
    if groups.len() == 0 {
        Seq::empty()
    } else if groups.len() == 1 {
        groups[0]
    } else {
        join_groups(groups.drop_last()) + seq![' '] + groups.last()
    }
}

/// Joining one more group adds a space (when there were groups) and the group.
pub proof fn lemma_join_push(groups: Seq<Seq<char>>, g: Seq<char>)
    ensures
        join_groups(groups.push(g)) == (if groups.len() == 0 { g } else { join_groups(groups) + seq![' '] + g }),
{
    assert(groups.push(g).drop_last() =~= groups);
}

fn push_group(s: &mut String, letter: &str, n: u8, any: bool)
    requires
        letter@.len() == 1,
    ensures
        final(s)@ == (if any { old(s)@ + seq![' '] } else { old(s)@ })
            + ManaPool::colour_group(letter@[0], n),
{
    proof {
        reveal_strlit("{");
        reveal_strlit("}");
        reveal_strlit(" ");
    }
    let ghost start = if any { s@ + seq![' '] } else { s@ };
    if any {
        s.append(" ");
    }
    s.append("{");
    push_repeated(s, letter, n as u64);
    s.append("}");
    proof {
        assert(letter@ =~= seq![letter@[0]]);
        assert(s@ =~= start + ManaPool::colour_group(letter@[0], n));
    }
}

} // verus!
