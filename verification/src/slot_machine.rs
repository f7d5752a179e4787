//! The slot-machine minigame: three reels, and a win either by a chance
//! given in percent or by a winning combination of symbols.
use vstd::prelude::*;
use crate::rng::{choose_symbol, choose_three, placed, roll_percent};

verus! {

/// A slot machine: its symbols, the combinations that win, and, for a
/// machine that wins by chance, the chance in percent.
pub struct SlotMachine {
    symbols: Vec<&'static str>,
    winning_combinations: Vec<Vec<&'static str>>,
    symbol_weights: Option<Vec<usize>>,
    percent_chance_of_winning: Option<i8>,
}

/// The outcome of a spin.
pub struct SlotMachineResult {
    pub reels: Vec<String>,
    pub won: bool,
    pub symbols_used: Vec<String>,
    pub winning_combinations: Vec<Vec<String>>,
    pub result: String,
}

/// The symbols a machine that wins by chance takes its symbols from.
pub open spec fn all_symbols() -> Seq<Seq<char>> {
    seq!["🍒"@, "🍋"@, "🍊"@, "🍇"@, "🔔"@, "💎"@, "⭐"@, "💰"@]
}

/// How many symbols a machine that wins by chance has: two for an even
/// chance, and otherwise one hundred divided by the chance, rounded half
/// away from zero, held between two and eight.
pub open spec fn symbol_count(percent: int) -> int {
    if percent == 50 {
        2
    } else {
        let n = (200 + percent) / (2 * percent);
        if n < 2 { 2 } else if n > 8 { 8 } else { n }
    }
}

/// The symbols of a machine that wins by the given chance.
pub open spec fn chance_symbols(percent: int) -> Seq<Seq<char>> {
    if percent == 50 {
        seq!["✅"@, "❌"@]
    } else {
        all_symbols().take(symbol_count(percent))
    }
}

/// Each symbol three times over, as the combinations of a machine that wins
/// by chance.
pub open spec fn triples(symbols: Seq<Seq<char>>) -> Seq<Seq<Seq<char>>> {
    symbols.map_values(|s: Seq<char>| seq![s, s, s])
}

/// A chance in percent held between one and a hundred.
pub open spec fn clamp_percent(p: i8) -> i8 {
    if p < 1 { 1 } else if p > 100 { 100 } else { p }
}

/// Symbols by their characters.
pub open spec fn str_views(s: Seq<&'static str>) -> Seq<Seq<char>> {
    s.map_values(|x: &'static str| x@)
}

/// Strings by their characters.
pub open spec fn string_views(s: Seq<String>) -> Seq<Seq<char>> {
    s.map_values(|x: String| x@)
}

/// No two symbols are the same.
pub open spec fn distinct(s: Seq<Seq<char>>) -> bool {
    forall|i: int, j: int| 0 <= i < j < s.len() ==> #[trigger] s[i] != #[trigger] s[j]
}

impl SlotMachine {
    /// The symbols, by their characters.
    pub closed spec fn symbols_view(&self) -> Seq<Seq<char>> {
        str_views(self.symbols@)
    }

    /// The winning combinations, by their characters.
    pub closed spec fn combinations_view(&self) -> Seq<Seq<Seq<char>>> {
        self.winning_combinations@.map_values(|c: Vec<&'static str>| str_views(c@))
    }

    /// The chance of winning, for a machine that wins by chance.
    pub closed spec fn chance(&self) -> Option<i8> {
        self.percent_chance_of_winning
    }

    /// Weighted draws are never set up; a machine that wins by chance has at
    /// least two distinct symbols, each winning three of a kind.
    #[verifier::type_invariant]
    spec fn inv(&self) -> bool {
        &&& self.symbol_weights.is_none()
        &&& match self.percent_chance_of_winning {
            Some(p) => {
                &&& 1 <= p <= 100
                &&& self.symbols@.len() >= 2
                &&& distinct(str_views(self.symbols@))
                &&& self.combinations_view() == triples(str_views(self.symbols@))
            },
            None => true,
        }
    }

    /// The reels match a winning combination.
    pub open spec fn wins_with(&self, reels: Seq<Seq<char>>) -> bool {
        exists|k: int| 0 <= k < self.combinations_view().len() && #[trigger] self.combinations_view()[k] == reels
    }

    /// A machine that wins by the given chance, held between one and a
    /// hundred percent.
    pub fn new(percent_chance_of_winning: i8) -> (m: Self)
        ensures
            m.chance() == Some(clamp_percent(percent_chance_of_winning)),
            m.symbols_view() == chance_symbols(clamp_percent(percent_chance_of_winning) as int),
            m.combinations_view() == triples(chance_symbols(clamp_percent(percent_chance_of_winning) as int)),
    {
        let p: i8 = if percent_chance_of_winning < 1 {
            1
        } else if percent_chance_of_winning > 100 {
            100
        } else {
            percent_chance_of_winning
        };
        proof {
            reveal_strlit("🍒");
            reveal_strlit("🍋");
            reveal_strlit("🍊");
            reveal_strlit("🍇");
            reveal_strlit("🔔");
            reveal_strlit("💎");
            reveal_strlit("⭐");
            reveal_strlit("💰");
            reveal_strlit("✅");
            reveal_strlit("❌");
        }
        let mut symbols: Vec<&'static str> = Vec::new();
        if p == 50 {
            symbols.push("✅");
            symbols.push("❌");
        } else {
            let all: Vec<&'static str> = vec!["🍒", "🍋", "🍊", "🍇", "🔔", "💎", "⭐", "💰"];
            assert(str_views(all@) =~= all_symbols());
            let pu = p as usize;
            let mut number_of_symbols: usize = (200 + pu) / (2 * pu);
            if number_of_symbols < 2 {
                number_of_symbols = 2;
            }
            if number_of_symbols > all.len() {
                number_of_symbols = all.len();
            }
            assert(number_of_symbols == symbol_count(p as int));
            let mut i: usize = 0;
            while i < number_of_symbols
                invariant
                    i <= number_of_symbols <= all@.len(),
                    str_views(all@) == all_symbols(),
                    symbols@.len() == i,
                    forall|j: int| 0 <= j < i ==> (#[trigger] symbols@[j])@ == all_symbols()[j],
                decreases number_of_symbols - i,
            {
                assert(all@[i as int]@ == str_views(all@)[i as int]);
                symbols.push(all[i]);
                i = i + 1;
            }
            assert(str_views(symbols@) =~= all_symbols().take(number_of_symbols as int));
        }
        assert(str_views(symbols@) =~= chance_symbols(p as int));
        let mut winning_combinations: Vec<Vec<&'static str>> = Vec::new();
        let mut k: usize = 0;
        while k < symbols.len()
            invariant
                k <= symbols@.len(),
                winning_combinations@.len() == k,
                forall|j: int| 0 <= j < k ==> str_views((#[trigger] winning_combinations@[j])@) == seq![symbols@[j]@, symbols@[j]@, symbols@[j]@],
            decreases symbols@.len() - k,
        {
            let s = symbols[k];
            let mut combo: Vec<&'static str> = Vec::new();
            combo.push(s);
            combo.push(s);
            combo.push(s);
            assert(str_views(combo@) =~= seq![s@, s@, s@]);
            winning_combinations.push(combo);
            k = k + 1;
        }
        assert(winning_combinations@.map_values(|c: Vec<&'static str>| str_views(c@)) =~= triples(str_views(symbols@)));
        proof {
            let a = all_symbols();
            assert(a[0] == seq!['🍒'] && a[1] == seq!['🍋'] && a[2] == seq!['🍊'] && a[3] == seq!['🍇']);
            assert(a[4] == seq!['🔔'] && a[5] == seq!['💎'] && a[6] == seq!['⭐'] && a[7] == seq!['💰']);
            assert forall|i: int, j: int| 0 <= i < j < a.len() implies #[trigger] a[i] != #[trigger] a[j] by {
                assert(a[i][0] != a[j][0]);
            }
            assert("✅"@[0] != "❌"@[0]);
        }
        SlotMachine {
            symbols,
            winning_combinations,
            symbol_weights: None,
            percent_chance_of_winning: Some(p),
        }
    }

    /// A machine that wins half the time.
    pub fn with_50_percent_chance() -> (m: Self)
        ensures
            m.chance() == Some(50i8),
            m.symbols_view() == seq!["✅"@, "❌"@],
            m.combinations_view() == triples(seq!["✅"@, "❌"@]),
    {
        Self::new(50)
    }

    /// A machine that wins a third of the time.
    pub fn with_33_percent_chance() -> (m: Self)
        ensures
            m.chance() == Some(33i8),
            m.symbols_view() == all_symbols().take(3),
            m.combinations_view() == triples(all_symbols().take(3)),
    {
        Self::new(33)
    }

    /// A machine that wins when the reels match one of the combinations.
    pub fn with_custom_symbols_and_combinations(symbols: Vec<&'static str>, winning_combinations: Vec<Vec<&'static str>>) -> (m: Self)
        ensures
            m.chance().is_none(),
            m.symbols_view() == str_views(symbols@),
            m.combinations_view() == winning_combinations@.map_values(|c: Vec<&'static str>| str_views(c@)),
    {
        SlotMachine {
            symbols,
            winning_combinations,
            symbol_weights: None,
            percent_chance_of_winning: None,
        }
    }

    /// Whether the reels match one of the winning combinations.
    pub fn is_winning(&self, reels: &Vec<String>) -> (b: bool)
        ensures
            b == self.wins_with(string_views(reels@)),
    {
        let mut k: usize = 0;
        while k < self.winning_combinations.len()
            invariant
                k <= self.winning_combinations@.len(),
                forall|j: int| 0 <= j < k ==> #[trigger] self.combinations_view()[j] != string_views(reels@),
            decreases self.winning_combinations@.len() - k,
        {
            let combo = &self.winning_combinations[k];
            let mut same = combo.len() == reels.len();
            assert(!same ==> str_views(combo@).len() != string_views(reels@).len());
            let mut i: usize = 0;
            while same && i < combo.len()
                invariant
                    i <= combo@.len(),
                    *combo == self.winning_combinations@[k as int],
                    same ==> combo@.len() == reels@.len(),
                    same ==> forall|x: int| 0 <= x < i ==> (#[trigger] combo@[x])@ == reels@[x]@,
                    !same ==> str_views(combo@) != string_views(reels@),
                decreases combo@.len() - i + (if same { 1int } else { 0int }),
            {
                if combo[i].to_string() != reels[i] {
                    same = false;
                    assert(str_views(combo@)[i as int] != string_views(reels@)[i as int]);
                } else {
                    i = i + 1;
                }
            }
            if same {
                assert(str_views(combo@) =~= string_views(reels@));
                assert(self.combinations_view()[k as int] == str_views(combo@));
                return true;
            }
            assert(self.combinations_view()[k as int] == str_views(combo@));
            k = k + 1;
        }
        false
    }

    /// The symbols as strings.
    fn symbol_strings(&self) -> (r: Vec<String>)
        ensures
            string_views(r@) == self.symbols_view(),
    {
        let mut r: Vec<String> = Vec::new();
        let mut i: usize = 0;
        while i < self.symbols.len()
            invariant
                i <= self.symbols@.len(),
                r@.len() == i,
                forall|j: int| 0 <= j < i ==> (#[trigger] r@[j])@ == self.symbols@[j]@,
            decreases self.symbols@.len() - i,
        {
            r.push(self.symbols[i].to_string());
            i = i + 1;
        }
        assert(string_views(r@) =~= str_views(self.symbols@));
        r
    }

    /// The winning combinations as strings.
    fn combination_strings(&self) -> (r: Vec<Vec<String>>)
        ensures
            r@.map_values(|c: Vec<String>| string_views(c@)) == self.combinations_view(),
    {
        let mut r: Vec<Vec<String>> = Vec::new();
        let mut k: usize = 0;
        while k < self.winning_combinations.len()
            invariant
                k <= self.winning_combinations@.len(),
                r@.len() == k,
                forall|j: int| 0 <= j < k ==> string_views((#[trigger] r@[j])@) == self.combinations_view()[j],
            decreases self.winning_combinations@.len() - k,
        {
            let combo = &self.winning_combinations[k];
            let mut c: Vec<String> = Vec::new();
            let mut i: usize = 0;
            while i < combo.len()
                invariant
                    i <= combo@.len(),
                    c@.len() == i,
                    forall|j: int| 0 <= j < i ==> (#[trigger] c@[j])@ == combo@[j]@,
                decreases combo@.len() - i,
            {
                c.push(combo[i].to_string());
                i = i + 1;
            }
            assert(string_views(c@) =~= str_views(combo@));
            r.push(c);
            k = k + 1;
        }
        assert(r@.map_values(|c: Vec<String>| string_views(c@)) =~= self.combinations_view());
        r
    }

    /// The outcome of a spin that left the given reels and was or was not won.
    pub fn settle(&self, reels: Vec<String>, won: bool, winning_message: &str, losing_message: &str) -> (r: SlotMachineResult)
        ensures
            r.reels == reels,
            r.won == won,
            r.result@ == if won { winning_message@ } else { losing_message@ },
            string_views(r.symbols_used@) == self.symbols_view(),
            r.winning_combinations@.map_values(|c: Vec<String>| string_views(c@)) == self.combinations_view(),
    {
        SlotMachineResult {
            reels,
            won,
            result: if won { winning_message.to_string() } else { losing_message.to_string() },
            symbols_used: self.symbol_strings(),
            winning_combinations: self.combination_strings(),
        }
    }

    /// Three symbols drawn without repetition (fewer when the machine has
    /// fewer symbols), drawn again as long as they win; for a machine that
    /// wins by chance no such draw wins, so the first one stands.
    fn reroll(&self) -> (r: Vec<String>)
        requires
            self.chance() is Some,
        ensures
            r@.len() == if self.symbols_view().len() < 3 { self.symbols_view().len() } else { 3 },
            forall|i: int| 0 <= i < r@.len() ==> self.symbols_view().contains((#[trigger] r@[i])@),
            !self.wins_with(string_views(r@)),
    {
        proof {
            use_type_invariant(self);
        }
        let mut reels = self.draw_distinct();
        while self.is_winning(&reels)
            invariant
                self.percent_chance_of_winning is Some,
                self.symbols@.len() >= 2,
                distinct(str_views(self.symbols@)),
                self.combinations_view() == triples(str_views(self.symbols@)),
                reels@.len() == if self.symbols_view().len() < 3 { self.symbols_view().len() } else { 3 },
                forall|i: int| 0 <= i < reels@.len() ==> self.symbols_view().contains((#[trigger] reels@[i])@),
                !self.wins_with(string_views(reels@)),
            decreases (if self.wins_with(string_views(reels@)) { 1int } else { 0int }),
        {
            reels = self.draw_distinct();
        }
        reels
    }

    /// Up to three symbols drawn at random without repetition, as strings;
    /// for a machine that wins by chance they never win.
    fn draw_distinct(&self) -> (fresh: Vec<String>)
        requires
            self.chance() is Some,
        ensures
            fresh@.len() == if self.symbols_view().len() < 3 { self.symbols_view().len() } else { 3 },
            forall|i: int| 0 <= i < fresh@.len() ==> self.symbols_view().contains((#[trigger] fresh@[i])@),
            !self.wins_with(string_views(fresh@)),
    {
        proof {
            use_type_invariant(self);
        }
        let drawn = choose_three(&self.symbols);
        let mut fresh: Vec<String> = Vec::new();
        let mut i: usize = 0;
        while i < drawn.len()
            invariant
                i <= drawn@.len(),
                fresh@.len() == i,
                forall|j: int| 0 <= j < i ==> (#[trigger] fresh@[j])@ == drawn@[j]@,
            decreases drawn@.len() - i,
        {
            fresh.push(drawn[i].to_string());
            i = i + 1;
        }
        proof {
            let places = choose|places: Seq<int>| placed(self.symbols@, drawn@, places);
            assert forall|i: int| 0 <= i < fresh@.len() implies self.symbols_view().contains((#[trigger] fresh@[i])@) by {
                assert(self.symbols_view()[places[i]] == fresh@[i]@);
            }
            if self.wins_with(string_views(fresh@)) {
                let k = choose|k: int| 0 <= k < self.combinations_view().len() && #[trigger] self.combinations_view()[k] == string_views(fresh@);
                let sym = str_views(self.symbols@)[k];
                assert(self.combinations_view()[k] == seq![sym, sym, sym]);
                assert(fresh@.len() == 3);
                assert(string_views(fresh@)[0] == string_views(fresh@)[1]);
                assert(places[0] != places[1]);
                assert(str_views(self.symbols@)[places[0]] == fresh@[0]@);
                assert(str_views(self.symbols@)[places[1]] == fresh@[1]@);
                if places[0] < places[1] {
                    assert(str_views(self.symbols@)[places[0]] != str_views(self.symbols@)[places[1]]);
                } else {
                    assert(str_views(self.symbols@)[places[1]] != str_views(self.symbols@)[places[0]]);
                }
            }
        }
        fresh
    }

    /// How a spin of a machine that wins by chance ends, given the number
    /// rolled from `0..100`, the first three reels, the symbol drawn for a
    /// win (drawn only when the roll wins) and the reels drawn again
    /// (drawn only when the roll loses and the first reels would win): the
    /// machine wins exactly when the roll is below its chance, and then shows
    /// the drawn symbol three times; otherwise it shows the first reels, or
    /// the ones drawn again when the first ones would win.
    pub fn chance_outcome(&self, roll: usize, first: Vec<String>, winning_symbol: Option<String>, rerolled: Option<Vec<String>>) -> (r: (bool, Vec<String>))
        requires
            self.chance() is Some,
            roll < self.chance().unwrap() ==> winning_symbol is Some,
            !(roll < self.chance().unwrap()) && self.wins_with(string_views(first@)) ==> rerolled is Some,
        ensures
            r.0 == (roll < self.chance().unwrap()),
            r.0 ==> r.1@.len() == 3 && r.1@[0] == winning_symbol.unwrap() && r.1@[1] == winning_symbol.unwrap()
                && r.1@[2] == winning_symbol.unwrap(),
            !r.0 ==> r.1 == if self.wins_with(string_views(first@)) { rerolled.unwrap() } else { first },
    {
        let percent = match self.percent_chance_of_winning {
            Some(p) => p,
            None => 0,
        };
        proof {
            use_type_invariant(self);
        }
        if roll < percent as usize {
            let s = match winning_symbol {
                Some(s) => s,
                None => String::new(),
            };
            let mut reels: Vec<String> = Vec::new();
            reels.push(s.clone());
            reels.push(s.clone());
            reels.push(s);
            (true, reels)
        } else if self.is_winning(&first) {
            match rerolled {
                Some(r) => (false, r),
                None => (false, first),
            }
        } else {
            (false, first)
        }
    }

    /// Spins the machine: three reels are drawn. A machine that wins by chance
    /// rolls a number from `0..100` and wins when it is below its chance,
    /// showing three of one symbol, and otherwise shows reels that win
    /// nothing: the first ones, or, when they would win, up to three symbols
    /// drawn again without repetition; any other machine wins when its three
    /// reels match a winning combination.
    pub fn spin(&self, winning_message: &str, losing_message: &str) -> (r: SlotMachineResult)
        requires
            self.symbols_view().len() > 0,
        ensures
            string_views(r.symbols_used@) == self.symbols_view(),
            r.winning_combinations@.map_values(|c: Vec<String>| string_views(c@)) == self.combinations_view(),
            r.result@ == if r.won { winning_message@ } else { losing_message@ },
            forall|i: int| 0 <= i < r.reels@.len() ==> self.symbols_view().contains((#[trigger] r.reels@[i])@),
            r.reels@.len() == 3 || (!r.won && r.reels@.len() == self.symbols_view().len() && self.symbols_view().len() < 3),
            match self.chance() {
                None => r.reels@.len() == 3 && r.won == self.wins_with(string_views(r.reels@)),
                Some(_) => {
                    &&& r.won ==> r.reels@.len() == 3 && r.reels@[0]@ == r.reels@[1]@ && r.reels@[1]@ == r.reels@[2]@
                    &&& !r.won ==> !self.wins_with(string_views(r.reels@))
                },
            },
    {
        proof {
            use_type_invariant(self);
        }
        let mut reels: Vec<String> = Vec::new();
        let mut n: usize = 0;
        while n < 3
            invariant
                n <= 3,
                reels@.len() == n,
                self.symbols_view().len() > 0,
                forall|i: int| 0 <= i < reels@.len() ==> self.symbols_view().contains((#[trigger] reels@[i])@),
            decreases 3 - n,
        {
            let symbol = choose_symbol(&self.symbols);
            proof {
                let k = choose|k: int| 0 <= k < self.symbols@.len() && self.symbols@[k] == symbol;
                assert(self.symbols_view()[k] == symbol@);
            }
            reels.push(symbol.to_string());
            n = n + 1;
        }
        match self.percent_chance_of_winning {
            Some(percent_chance) => {
                let roll = roll_percent();
                let winning_symbol = if roll < percent_chance as usize {
                    let s = choose_symbol(&self.symbols);
                    proof {
                        let k = choose|k: int| 0 <= k < self.symbols@.len() && self.symbols@[k] == s;
                        assert(self.symbols_view()[k] == s@);
                    }
                    Some(s.to_string())
                } else {
                    None
                };
                let rerolled = if !(roll < percent_chance as usize) && self.is_winning(&reels) {
                    Some(self.reroll())
                } else {
                    None
                };
                let ghost first = reels@;
                let ghost ws = winning_symbol;
                let ghost rr = rerolled;
                let (won, shown) = self.chance_outcome(roll, reels, winning_symbol, rerolled);
                proof {
                    if won {
                        assert(self.symbols_view().contains(ws.unwrap()@));
                    } else if self.wins_with(string_views(first)) {
                        assert(shown == rr.unwrap());
                    }
                }
                self.settle(shown, won, winning_message, losing_message)
            },
            None => {
                let won = self.is_winning(&reels);
                self.settle(reels, won, winning_message, losing_message)
            },
        }
    }
}

} // verus!
