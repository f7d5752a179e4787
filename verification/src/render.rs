//! Drawing a card as a box of text lines for a terminal.
use vstd::prelude::*;
use crate::card::{Card, cost_tokens};
use crate::mana::join_groups;
use crate::player::Player;
use crate::stat::{Stat, StatManager, StatType, Stats, stat_type_name};
use crate::text::{decimal, push_decimal, push_repeated, repeat};

verus! {

/// What `textwrap::fill` makes of the text at the given width.
pub uninterp spec fn filled_text(text: Seq<char>, width: usize) -> Seq<char>;

/// Wraps the text at the given width, lines joined by newlines, with
/// `textwrap::fill`; the result is named `filled_text`.
#[verifier::external_body]
fn fill_text(text: &String, width: usize) -> (r: String)
    ensures
        r@ == filled_text(text@, width),
{
    textwrap::fill(text, width)
}

/// The lines finished and the line being read after the first `i`
/// characters: a newline ends a line, dropping a carriage return just before it.
pub open spec fn scan_lines(s: Seq<char>, i: nat) -> (Seq<Seq<char>>, Seq<char>)
    decreases i,
{
    if i == 0 {
        (Seq::empty(), Seq::empty())
    } else {
        let (done, cur) = scan_lines(s, (i - 1) as nat);
        if s[i - 1] == '\n' {
            (done.push(if cur.len() > 0 && cur.last() == '\r' { cur.drop_last() } else { cur }), Seq::empty())
        } else {
            (done, cur.push(s[i - 1]))
        }
    }
}

/// The lines of a text as `str::lines` gives them: split at newlines, a
/// carriage return before a newline dropped, and no empty line after a
/// final newline.
pub open spec fn text_lines(s: Seq<char>) -> Seq<Seq<char>> {
    let (done, cur) = scan_lines(s, s.len());
    if cur.len() > 0 { done.push(cur) } else { done }
}

/// `s` padded on the right with spaces to `width` characters.
pub open spec fn pad_right(s: Seq<char>, width: int) -> Seq<char> {
    if s.len() < width { s + repeat(seq![' '], (width - s.len()) as nat) } else { s }
}

/// `s` centred in `width` characters, the odd space going to the right.
pub open spec fn centred(s: Seq<char>, width: int) -> Seq<char> {
    if s.len() < width {
        let left = (width - s.len()) / 2;
        repeat(seq![' '], left as nat) + s + repeat(seq![' '], (width - s.len() - left) as nat)
    } else {
        s
    }
}

/// An `i16` written in decimal, with a minus sign when negative.
pub open spec fn signed_decimal(n: int) -> Seq<char> {
    if n < 0 { seq!['-'] + decimal((-n) as nat) } else { decimal(n as nat) }
}

/// A rule of the box: the corners and `n` horizontal bars between them.
pub open spec fn rule(left: char, right: char, n: int) -> Seq<char> {
    seq![left] + repeat(seq!['─'], n as nat) + seq![right]
}

/// The power and toughness of a card, as `p/t`.
pub open spec fn stats_text(c: Card) -> Seq<char> {
    signed_decimal(c.stats.total(StatType::Power)) + seq!['/'] + signed_decimal(c.stats.total(StatType::Toughness))
}

/// The line of a card's box that holds its cost and its power and toughness.
pub open spec fn cost_line(c: Card, width: int) -> Seq<char> {
    let mana = join_groups(cost_tokens(c.cost@));
    let stats = stats_text(c);
    seq!['│', ' '] + mana + seq![' '] + pad_right(seq![' '], width - stats.len() - mana.len() - 6) + seq![' '] + stats + seq![' ', '│']
}

/// The lines of a card's box before the blank filler: top, name, cost and
/// power, a rule, and the wrapped description.
pub open spec fn card_head(c: Card, width: int, desc: Seq<Seq<char>>) -> Seq<Seq<char>> {
    seq![
        rule('┌', '┐', width - 2),
        seq!['│'] + centred(c.name@, width - 2) + seq!['│'],
        rule('├', '┤', width - 2),
        cost_line(c, width),
        rule('├', '┤', width - 2),
    ] + desc.map_values(|l: Seq<char>| seq!['│', ' '] + pad_right(l, width - 3) + seq!['│'])
}

/// The box of a card: its head, blank lines up to eight lines in all, and
/// the bottom, which shows a `t` when the card is tapped.
pub open spec fn card_box(c: Card, width: int, desc: Seq<Seq<char>>) -> Seq<Seq<char>> {
    let head = card_head(c, width, desc);
    let filler = if head.len() < 8 { (8 - head.len()) as nat } else { 0 };
    head + Seq::new(filler, |i: int| seq!['│'] + pad_right(seq![' '], width - 2) + seq!['│'])
        + seq![seq!['└', if c.tapped { 't' } else { '─' }] + repeat(seq!['─'], (width - 3) as nat) + seq!['┘']]
}

/// The lines of the text, as `str::lines` gives them.
fn split_lines(s: &String) -> (r: Vec<String>)
    ensures
        r@.map_values(|l: String| l@) == text_lines(s@),
{
    let n = s.as_str().unicode_len();
    let mut done: Vec<String> = Vec::new();
    let mut cur = String::new();
    let mut i: usize = 0;
    while i < n
        invariant
            n == s@.len(),
            i <= n,
            done@.map_values(|l: String| l@) == scan_lines(s@, i as nat).0,
            cur@ == scan_lines(s@, i as nat).1,
        decreases n - i,
    {
        let ch = s.as_str().get_char(i);
        if ch == '\n' {
            let len = cur.as_str().unicode_len();
            let line = if len > 0 && cur.as_str().get_char(len - 1) == '\r' {
                cur.as_str().substring_char(0, len - 1).to_string()
            } else {
                cur
            };
            let ghost before = done@;
            done.push(line);
            cur = String::new();
            proof {
                assert(done@.map_values(|l: String| l@) =~= before.map_values(|l: String| l@).push(line@));
            }
        } else {
            cur.append(s.as_str().substring_char(i, i + 1));
        }
        i = i + 1;
    }
    if cur.as_str().unicode_len() > 0 {
        let ghost before = done@;
        done.push(cur);
        proof {
            assert(done@.map_values(|l: String| l@) =~= before.map_values(|l: String| l@).push(cur@));
        }
    }
    done
}

/// Appends `s` padded on the right with spaces to `width` characters.
fn push_padded(out: &mut String, s: &str, width: usize)
    ensures
        final(out)@ == old(out)@ + pad_right(s@, width as int),
{
    let len = s.unicode_len();
    out.append(s);
    if len < width {
        push_repeated(out, " ", (width - len) as u64);
    }
    proof {
        reveal_strlit(" ");
        assert(" "@ =~= seq![' ']);
    }
}

/// Appends an `i16` in decimal, with a minus sign when negative.
fn push_signed(out: &mut String, n: i16)
    ensures
        final(out)@ == old(out)@ + signed_decimal(n as int),
{
    proof {
        reveal_strlit("-");
    }
    if n < 0 {
        out.append("-");
        let m: i32 = -(n as i32);
        push_decimal(out, m as u64);
    } else {
        push_decimal(out, n as u64);
    }
}

/// Appends a rule of the box.
fn push_rule(out: &mut String, left: &str, right: &str, n: usize)
    requires
        left@.len() == 1,
        right@.len() == 1,
    ensures
        final(out)@ == old(out)@ + rule(left@[0], right@[0], n as int),
{
    proof {
        reveal_strlit("─");
    }
    let ghost o0 = out@;
    out.append(left);
    push_repeated(out, "─", n as u64);
    let ghost o2 = out@;
    out.append(right);
    proof {
        assert((n as u64) as nat == n as nat);
        assert("─"@ =~= seq!['─']);
        assert(left@ =~= seq![left@[0]]);
        assert(right@ =~= seq![right@[0]]);
        assert(o2 == o0 + left@ + repeat(seq!['─'], n as nat));
        assert(out@ =~= o0 + rule(left@[0], right@[0], n as int));
    }
}

impl Card {
    /// The card drawn as a box of text lines `width` characters wide: its
    /// name centred, its cost and power and toughness, its description
    /// wrapped to fit, blank lines up to eight, and a bottom that marks a
    /// tapped card.
    pub fn render(&self, width: usize) -> (lines: Vec<String>)
        requires
            self.cost@.len() < 0x1_0000_0000,
            self.stats.stats@.len() < 0x1_0000_0000,
            i16::MIN <= self.stats.total(StatType::Power) <= i16::MAX,
            i16::MIN <= self.stats.total(StatType::Toughness) <= i16::MAX,
            width >= stats_text(*self).len() + join_groups(cost_tokens(self.cost@)).len() + 6,
        ensures
            lines@.map_values(|l: String| l@) == card_box(*self, width as int, text_lines(filled_text(self.description@, (width - 4) as usize))),
    {
        let description = fill_text(&self.description, width - 4);
        self.render_with_text(width, &description)
    }

    /// The card's box `width` characters wide around the given wrapped
    /// description, its lines split at newlines.
    #[verifier::rlimit(40)]
    pub fn render_with_text(&self, width: usize, description: &String) -> (lines: Vec<String>)
        requires
            self.cost@.len() < 0x1_0000_0000,
            self.stats.stats@.len() < 0x1_0000_0000,
            i16::MIN <= self.stats.total(StatType::Power) <= i16::MAX,
            i16::MIN <= self.stats.total(StatType::Toughness) <= i16::MAX,
            width >= stats_text(*self).len() + join_groups(cost_tokens(self.cost@)).len() + 6,
        ensures
            lines@.map_values(|l: String| l@) == card_box(*self, width as int, text_lines(description@)),
    {
        proof {
            reveal_strlit("┌");
            reveal_strlit("┐");
            reveal_strlit("├");
            reveal_strlit("┤");
            reveal_strlit("│");
            reveal_strlit("│ ");
            reveal_strlit(" ");
            reveal_strlit("/");
        }
        let mut lines: Vec<String> = Vec::new();
        let mut top = String::new();
        push_rule(&mut top, "┌", "┐", width - 2);
        proof {
            assert(top@ =~= rule('┌', '┐', width - 2));
        }
        lines.push(top);
        let mut name = "│".to_string();
        let name_len = self.name.as_str().unicode_len();
        if name_len < width - 2 {
            let left = (width - 2 - name_len) / 2;
            let ghost n0 = name@;
            push_repeated(&mut name, " ", left as u64);
            let ghost n1 = name@;
            name.append(self.name.as_str());
            let ghost n2 = name@;
            push_repeated(&mut name, " ", (width - 2 - name_len - left) as u64);
            let ghost n3 = name@;
            name.append("│");
            proof {
                assert((left as u64) as nat == left as nat);
                assert(" "@ =~= seq![' ']);
                assert("│"@ =~= seq!['│']);
                assert(((width - 2 - name_len - left) as u64) as nat == (width - 2 - name_len - left) as nat);
                assert(n0 =~= seq!['│']);
                assert(n3 =~= seq!['│'] + repeat(seq![' '], left as nat) + self.name@ + repeat(seq![' '], (width - 2 - name_len - left) as nat));
                assert(name@ =~= seq!['│'] + centred(self.name@, width - 2) + seq!['│']);
            }
        } else {
            name.append(self.name.as_str());
            name.append("│");
            proof {
                assert(name@ =~= seq!['│'] + centred(self.name@, width - 2) + seq!['│']);
            }
        }
        lines.push(name);
        let mut rule1 = String::new();
        push_rule(&mut rule1, "├", "┤", width - 2);
        proof {
            assert(rule1@ =~= rule('├', '┤', width - 2));
        }
        lines.push(rule1);
        let mana = self.format_mana_cost();
        let mut stats = String::new();
        push_signed(&mut stats, self.get_stat_value(StatType::Power));
        stats.append("/");
        push_signed(&mut stats, self.get_stat_value(StatType::Toughness));
        let stats_len = stats.as_str().unicode_len();
        let mana_len = mana.as_str().unicode_len();
        let mut cost = "│ ".to_string();
        cost.append(mana.as_str());
        cost.append(" ");
        push_padded(&mut cost, " ", width - stats_len - mana_len - 6);
        cost.append(" ");
        cost.append(stats.as_str());
        cost.append(" │");
        proof {
            reveal_strlit(" │");
            assert(stats@ =~= stats_text(*self));
            assert(cost@ =~= cost_line(*self, width as int));
        }
        lines.push(cost);
        let mut rule2 = String::new();
        push_rule(&mut rule2, "├", "┤", width - 2);
        proof {
            assert(rule2@ =~= rule('├', '┤', width - 2));
        }
        lines.push(rule2);
        let desc = split_lines(description);
        let ghost dl = text_lines(description@);
        let ghost w = width as int;
        proof {
            assert(lines@.map_values(|l: String| l@) =~= card_head(*self, w, dl.subrange(0, 0)));
        }
        let mut d: usize = 0;
        while d < desc.len()
            invariant
                desc@.map_values(|l: String| l@) == dl,
                d <= desc@.len(),
                width >= 6,
                w == width as int,
                lines@.map_values(|l: String| l@) == card_head(*self, w, dl.subrange(0, d as int)),
            decreases desc@.len() - d,
        {
            let mut line = "│ ".to_string();
            push_padded(&mut line, desc[d].as_str(), width - 3);
            line.append("│");
            proof {
                reveal_strlit("│ ");
                reveal_strlit("│");
                assert(desc@.map_values(|l: String| l@)[d as int] == desc@[d as int]@);
                assert(line@ =~= seq!['│', ' '] + pad_right(dl[d as int], w - 3) + seq!['│']);
            }
            let ghost before = lines@;
            lines.push(line);
            proof {
                assert(dl.subrange(0, d as int + 1) =~= dl.subrange(0, d as int).push(dl[d as int]));
                assert(lines@.map_values(|l: String| l@) =~= before.map_values(|l: String| l@).push(line@));
                assert(card_head(*self, w, dl.subrange(0, d as int + 1)) =~= card_head(*self, w, dl.subrange(0, d as int)).push(line@));
            }
            d = d + 1;
        }
        proof {
            assert(dl.subrange(0, desc@.len() as int) =~= dl);
        }
        let ghost head = card_head(*self, w, dl);
        while lines.len() < 8
            invariant
                width >= 6,
                w == width as int,
                head == card_head(*self, w, dl),
                head.len() <= lines@.len(),
                lines@.len() == head.len() || lines@.len() <= 8,
                lines@.map_values(|l: String| l@) == head + Seq::new((lines@.len() - head.len()) as nat,
                    |i: int| seq!['│'] + pad_right(seq![' '], w - 2) + seq!['│']),
            decreases 8 - lines@.len(),
        {
            let mut blank = "│".to_string();
            push_padded(&mut blank, " ", width - 2);
            blank.append("│");
            proof {
                reveal_strlit("│");
                reveal_strlit(" ");
                assert(blank@ =~= seq!['│'] + pad_right(seq![' '], w - 2) + seq!['│']);
            }
            let ghost before = lines@;
            lines.push(blank);
            proof {
                let f = |i: int| seq!['│'] + pad_right(seq![' '], w - 2) + seq!['│'];
                assert(Seq::new((lines@.len() - head.len()) as nat, f) =~= Seq::new((before.len() - head.len()) as nat, f).push(blank@));
                assert(lines@.map_values(|l: String| l@) =~= before.map_values(|l: String| l@).push(blank@));
            }
        }
        let mut bottom = "└".to_string();
        if self.tapped {
            bottom.append("t");
        } else {
            bottom.append("─");
        }
        let ghost b1 = bottom@;
        push_repeated(&mut bottom, "─", (width - 3) as u64);
        bottom.append("┘");
        let ghost before = lines@;
        lines.push(bottom);
        proof {
            reveal_strlit("└");
            reveal_strlit("┘");
            reveal_strlit("t");
            reveal_strlit("─");
            assert(((width - 3) as u64) as nat == (width - 3) as nat);
            assert("─"@ =~= seq!['─']);
            assert("┘"@ =~= seq!['┘']);
            assert(b1 =~= seq!['└', if self.tapped { 't' } else { '─' }]);
            assert(bottom@ =~= seq!['└', if self.tapped { 't' } else { '─' }] + repeat(seq!['─'], (width - 3) as nat) + seq!['┘']);
            assert(lines@.map_values(|l: String| l@) =~= before.map_values(|l: String| l@).push(bottom@));
        }
        lines
    }
}

/// A boolean as Rust writes it.
pub open spec fn bool_text(b: bool) -> Seq<char> {
    if b { seq!['t', 'r', 'u', 'e'] } else { seq!['f', 'a', 'l', 's', 'e'] }
}

/// The stat types of the entries, each once, in the order they first occur.
pub open spec fn stat_types_in_order(s: Seq<(Seq<char>, Stat)>) -> Seq<StatType>
    decreases s.len(),
{
    if s.len() == 0 {
        Seq::empty()
    } else {
        let r = stat_types_in_order(s.drop_last());
        if r.contains(s.last().1.stat_type) { r } else { r.push(s.last().1.stat_type) }
    }
}

/// A line of a panel holding `text`, padded to the panel's inner width.
pub open spec fn panel_line(text: Seq<char>, width: int) -> Seq<char> {
    seq!['│', ' '] + pad_right(text, width - 3) + seq!['│']
}

/// An empty line of a panel.
pub open spec fn blank_line(width: int) -> Seq<char> {
    seq!['│'] + pad_right(seq![' '], width - 2) + seq!['│']
}

/// The text of a stat line of a player's panel: the type's name and total.
pub open spec fn stat_line_text(m: StatManager, t: StatType) -> Seq<char> {
    stat_type_name(t) + seq![':', ' '] + signed_decimal(m.total(t))
}

/// The lines of a player's panel before the blank filler: top, name, whether
/// the player is alive, a rule, one line per stat type the player carries,
/// and the mana pool.
pub open spec fn player_head(p: Player, width: int) -> Seq<Seq<char>> {
    seq![
        rule('┌', '┐', width - 2),
        seq!['│'] + centred(p.name@, width - 2) + seq!['│'],
        rule('├', '┤', width - 2),
        seq!['│', ' ', 'A', 'l', 'i', 'v', 'e', ':', ' '] + pad_right(bool_text(p.is_alive), width - 10) + seq!['│'],
        rule('├', '┤', width - 2),
    ] + stat_types_in_order(p.stat_manager.view()).map_values(|t: StatType| panel_line(stat_line_text(p.stat_manager, t), width))
        + seq![panel_line(seq!['M', 'a', 'n', 'a', ':', ' '] + join_groups(p.mana_pool.groups()), width)]
}

/// A player's panel: its head, blank lines up to `height - 1` lines, and the bottom.
pub open spec fn player_panel(p: Player, height: int, width: int) -> Seq<Seq<char>> {
    let head = player_head(p, width);
    let filler = if head.len() < height - 1 { (height - 1 - head.len()) as nat } else { 0 };
    head + Seq::new(filler, |i: int| blank_line(width)) + seq![rule('└', '┘', width - 2)]
}

/// Appends `s` centred in `width` characters.
fn push_centred(out: &mut String, s: &str, width: usize)
    ensures
        final(out)@ == old(out)@ + centred(s@, width as int),
{
    proof {
        reveal_strlit(" ");
        assert(" "@ =~= seq![' ']);
    }
    let len = s.unicode_len();
    if len < width {
        let left = (width - len) / 2;
        let ghost o0 = out@;
        push_repeated(out, " ", left as u64);
        out.append(s);
        push_repeated(out, " ", (width - len - left) as u64);
        proof {
            assert((left as u64) as nat == left as nat);
            assert(((width - len - left) as u64) as nat == (width - len - left) as nat);
            assert(out@ =~= o0 + centred(s@, width as int));
        }
    } else {
        out.append(s);
    }
}

/// A line of a panel holding `text`.
fn panel_line_of(text: &str, width: usize) -> (r: String)
    requires
        width >= 3,
    ensures
        r@ == panel_line(text@, width as int),
{
    proof {
        reveal_strlit("│ ");
        reveal_strlit("│");
    }
    let mut line = "│ ".to_string();
    push_padded(&mut line, text, width - 3);
    line.append("│");
    proof {
        assert(line@ =~= panel_line(text@, width as int));
    }
    line
}

/// The stat types the manager carries, each once, in the order they first occur.
fn stat_types(m: &StatManager) -> (r: Vec<StatType>)
    ensures
        r@ == stat_types_in_order(m.view()),
{
    let mut r: Vec<StatType> = Vec::new();
    let mut i: usize = 0;
    while i < m.stats.len()
        invariant
            i <= m.view().len(),
            m.view().len() == m.stats@.len(),
            r@ == stat_types_in_order(m.view().subrange(0, i as int)),
        decreases m.stats@.len() - i,
    {
        let t = m.stats[i].1.stat_type;
        proof {
            assert(m.view().subrange(0, i as int + 1).drop_last() =~= m.view().subrange(0, i as int));
            assert(m.view()[i as int].1.stat_type == t);
        }
        let mut seen = false;
        let mut k: usize = 0;
        while k < r.len()
            invariant
                k <= r@.len(),
                seen == exists|x: int| 0 <= x < k && r@[x] == t,
            decreases r@.len() - k,
        {
            if r[k] == t {
                seen = true;
            }
            k = k + 1;
        }
        proof {
            if seen {
                let x = choose|x: int| 0 <= x < k && r@[x] == t;
                assert(r@.contains(t));
            } else {
                assert(!r@.contains(t));
            }
        }
        if !seen {
            r.push(t);
        }
        i = i + 1;
    }
    proof {
        assert(m.view().subrange(0, m.stats@.len() as int) =~= m.view());
    }
    r
}

impl Player {
    /// The player's panel, `height` lines of `width` characters: name,
    /// whether alive, the total of each stat type carried (types in the order
    /// they first occur), the mana pool, blank lines, and the bottom.
    pub fn render_player_info(&self, height: usize, width: usize) -> (lines: Vec<String>)
        requires
            height >= 1,
            width >= 10,
            self.stat_manager.stats@.len() < 0x1_0000_0000,
            forall|t: StatType| i16::MIN <= #[trigger] self.stat_manager.total(t) <= i16::MAX,
        ensures
            lines@.map_values(|l: String| l@) == player_panel(*self, height as int, width as int),
    {
        proof {
            reveal_strlit("┌");
            reveal_strlit("┐");
            reveal_strlit("├");
            reveal_strlit("┤");
            reveal_strlit("└");
            reveal_strlit("┘");
            reveal_strlit("│");
            reveal_strlit("│ Alive: ");
            reveal_strlit("true");
            reveal_strlit("false");
            reveal_strlit(": ");
            reveal_strlit("Mana: ");
        }
        let ghost w = width as int;
        let mut lines: Vec<String> = Vec::new();
        let mut top = String::new();
        push_rule(&mut top, "┌", "┐", width - 2);
        proof {
            assert(top@ =~= rule('┌', '┐', w - 2));
        }
        lines.push(top);
        let mut name = "│".to_string();
        push_centred(&mut name, self.name.as_str(), width - 2);
        name.append("│");
        proof {
            assert(name@ =~= seq!['│'] + centred(self.name@, w - 2) + seq!['│']);
        }
        lines.push(name);
        let mut rule1 = String::new();
        push_rule(&mut rule1, "├", "┤", width - 2);
        proof {
            assert(rule1@ =~= rule('├', '┤', w - 2));
        }
        lines.push(rule1);
        let mut alive = "│ Alive: ".to_string();
        push_padded(&mut alive, if self.is_alive { "true" } else { "false" }, width - 10);
        alive.append("│");
        proof {
            assert("│ Alive: "@ =~= seq!['│', ' ', 'A', 'l', 'i', 'v', 'e', ':', ' ']);
            assert("true"@ =~= bool_text(true));
            assert("false"@ =~= bool_text(false));
            assert(alive@ =~= seq!['│', ' ', 'A', 'l', 'i', 'v', 'e', ':', ' '] + pad_right(bool_text(self.is_alive), w - 10) + seq!['│']);
        }
        lines.push(alive);
        let mut rule2 = String::new();
        push_rule(&mut rule2, "├", "┤", width - 2);
        proof {
            assert(rule2@ =~= rule('├', '┤', w - 2));
        }
        lines.push(rule2);
        let types = stat_types(&self.stat_manager);
        let ghost ts = stat_types_in_order(self.stat_manager.view());
        let ghost first = seq![
            rule('┌', '┐', w - 2),
            seq!['│'] + centred(self.name@, w - 2) + seq!['│'],
            rule('├', '┤', w - 2),
            seq!['│', ' ', 'A', 'l', 'i', 'v', 'e', ':', ' '] + pad_right(bool_text(self.is_alive), w - 10) + seq!['│'],
            rule('├', '┤', w - 2),
        ];
        proof {
            assert("│ Alive: "@ =~= seq!['│', ' ', 'A', 'l', 'i', 'v', 'e', ':', ' ']);
            assert(lines@.map_values(|l: String| l@) =~= first);
        }
        let mut k: usize = 0;
        while k < types.len()
            invariant
                types@ == ts,
                k <= ts.len(),
                w == width as int,
                width >= 10,
                self.stat_manager.stats@.len() < 0x1_0000_0000,
                forall|t: StatType| i16::MIN <= #[trigger] self.stat_manager.total(t) <= i16::MAX,
                lines@.map_values(|l: String| l@) == first
                    + ts.subrange(0, k as int).map_values(|t: StatType| panel_line(stat_line_text(self.stat_manager, t), w)),
            decreases ts.len() - k,
        {
            let t = types[k];
            let mut text = t.to_string();
            text.append(": ");
            let v = self.stat_manager.get_stat_value(t);
            push_signed(&mut text, v);
            proof {
                reveal_strlit(": ");
                assert(": "@ =~= seq![':', ' ']);
                assert(text@ =~= stat_line_text(self.stat_manager, t));
            }
            let line = panel_line_of(text.as_str(), width);
            let ghost before = lines@;
            lines.push(line);
            proof {
                assert(ts.subrange(0, k as int + 1) =~= ts.subrange(0, k as int).push(t));
                assert(lines@.map_values(|l: String| l@) =~= before.map_values(|l: String| l@).push(line@));
                assert(ts.subrange(0, k as int + 1).map_values(|t: StatType| panel_line(stat_line_text(self.stat_manager, t), w))
                    =~= ts.subrange(0, k as int).map_values(|t: StatType| panel_line(stat_line_text(self.stat_manager, t), w)).push(line@));
            }
            k = k + 1;
        }
        let mut mana = "Mana: ".to_string();
        let pool = self.mana_pool.format_mana();
        mana.append(pool.as_str());
        let mana_line = panel_line_of(mana.as_str(), width);
        let ghost before = lines@;
        lines.push(mana_line);
        let ghost head = player_head(*self, w);
        proof {
            assert("Mana: "@ =~= seq!['M', 'a', 'n', 'a', ':', ' ']);
            assert(ts.subrange(0, ts.len() as int) =~= ts);
            assert(lines@.map_values(|l: String| l@) =~= before.map_values(|l: String| l@).push(mana_line@));
            assert(lines@.map_values(|l: String| l@) =~= head);
        }
        while lines.len() < height - 1
            invariant
                width >= 10,
                w == width as int,
                height >= 1,
                head == player_head(*self, w),
                head.len() <= lines@.len(),
                lines@.len() == head.len() || lines@.len() <= height - 1,
                lines@.map_values(|l: String| l@) == head + Seq::new((lines@.len() - head.len()) as nat, |i: int| blank_line(w)),
            decreases height - 1 - lines@.len(),
        {
            let mut blank = "│".to_string();
            push_padded(&mut blank, " ", width - 2);
            blank.append("│");
            proof {
                reveal_strlit("│");
                reveal_strlit(" ");
                assert(blank@ =~= blank_line(w));
            }
            let ghost before = lines@;
            lines.push(blank);
            proof {
                let f = |i: int| blank_line(w);
                assert(Seq::new((lines@.len() - head.len()) as nat, f) =~= Seq::new((before.len() - head.len()) as nat, f).push(blank@));
                assert(lines@.map_values(|l: String| l@) =~= before.map_values(|l: String| l@).push(blank@));
            }
        }
        let mut bottom = String::new();
        push_rule(&mut bottom, "└", "┘", width - 2);
        let ghost before = lines@;
        lines.push(bottom);
        proof {
            assert(lines@.map_values(|l: String| l@) =~= before.map_values(|l: String| l@).push(bottom@));
            assert(lines@.map_values(|l: String| l@) =~= player_panel(*self, height as int, w));
        }
        lines
    }
}

/// What `Card::render` asks of a card and a width.
pub open spec fn renderable(c: Card, width: int) -> bool {
    &&& c.cost@.len() < 0x1_0000_0000
    &&& c.stats.stats@.len() < 0x1_0000_0000
    &&& i16::MIN <= c.stats.total(StatType::Power) <= i16::MAX
    &&& i16::MIN <= c.stats.total(StatType::Toughness) <= i16::MAX
    &&& width >= stats_text(c).len() + join_groups(cost_tokens(c.cost@)).len() + 6
}

/// The box `Card::render` draws for a card at the given width.
pub open spec fn box_of(c: Card, width: int) -> Seq<Seq<char>> {
    card_box(c, width, text_lines(filled_text(c.description@, (width - 4) as usize)))
}

/// The part of row `i` that card box `b` fills: its line padded to the
/// width, or blanks when the box has no such line.
pub open spec fn card_cell(b: Seq<Seq<char>>, i: int, width: int) -> Seq<char> {
    if i < b.len() { pad_right(b[i], width) } else { repeat(seq![' '], width as nat) }
}

/// Row `i` of the first `k` of the boxes side by side, two spaces between
/// neighbours.
pub open spec fn list_row(boxes: Seq<Seq<Seq<char>>>, i: int, width: int, k: int) -> Seq<char>
    decreases k,
{
    if k <= 0 {
        Seq::empty()
    } else {
        list_row(boxes, i, width, k - 1) + card_cell(boxes[k - 1], i, width)
            + if k < boxes.len() { seq![' ', ' '] } else { Seq::empty() }
    }
}

/// The ten rows of the cards' boxes side by side.
pub open spec fn card_list_lines(cards: Seq<Card>, width: int) -> Seq<Seq<char>> {
    let boxes = cards.map_values(|c: Card| box_of(c, width));
    Seq::new(10, |i: int| list_row(boxes, i, width, boxes.len() as int))
}

impl Player {
    /// The cards' boxes, `card_width` wide, side by side in ten rows, two
    /// spaces between neighbours, a box without a given row leaving blanks.
    pub fn render_card_list(&self, cards: &Vec<Card>, card_width: usize) -> (lines: Vec<String>)
        requires
            forall|j: int| 0 <= j < cards@.len() ==> renderable(#[trigger] cards@[j], card_width as int),
        ensures
            lines@.map_values(|l: String| l@) == card_list_lines(cards@, card_width as int),
    {
        proof {
            reveal_strlit(" ");
            reveal_strlit("  ");
        }
        let ghost w = card_width as int;
        let ghost boxes = cards@.map_values(|c: Card| box_of(c, w));
        let mut rendered: Vec<Vec<String>> = Vec::new();
        let mut j: usize = 0;
        while j < cards.len()
            invariant
                j <= cards@.len(),
                w == card_width as int,
                boxes == cards@.map_values(|c: Card| box_of(c, w)),
                forall|j: int| 0 <= j < cards@.len() ==> renderable(#[trigger] cards@[j], card_width as int),
                rendered@.len() == j,
                forall|x: int| 0 <= x < j ==> (#[trigger] rendered@[x])@.map_values(|l: String| l@) == boxes[x],
            decreases cards@.len() - j,
        {
            let b = cards[j].render(card_width);
            rendered.push(b);
            j = j + 1;
        }
        let mut lines: Vec<String> = Vec::new();
        let mut i: usize = 0;
        while i < 10
            invariant
                i <= 10,
                w == card_width as int,
                boxes == cards@.map_values(|c: Card| box_of(c, w)),
                rendered@.len() == boxes.len(),
                forall|x: int| 0 <= x < rendered@.len() ==> (#[trigger] rendered@[x])@.map_values(|l: String| l@) == boxes[x],
                lines@.map_values(|l: String| l@) == card_list_lines(cards@, w).subrange(0, i as int),
            decreases 10 - i,
        {
            let mut row = String::new();
            let mut k: usize = 0;
            while k < rendered.len()
                invariant
                    i < 10,
                    k <= rendered@.len(),
                    w == card_width as int,
                    rendered@.len() == boxes.len(),
                    forall|x: int| 0 <= x < rendered@.len() ==> (#[trigger] rendered@[x])@.map_values(|l: String| l@) == boxes[x],
                    row@ == list_row(boxes, i as int, w, k as int),
                decreases rendered@.len() - k,
            {
                let ghost r0 = row@;
                let bx = &rendered[k];
                proof {
                    assert(bx@.map_values(|l: String| l@) == boxes[k as int]);
                }
                if i < bx.len() {
                    push_padded(&mut row, bx[i].as_str(), card_width);
                    proof {
                        assert(bx@.map_values(|l: String| l@)[i as int] == bx@[i as int]@);
                    }
                } else {
                    push_repeated(&mut row, " ", card_width as u64);
                    proof {
                        reveal_strlit(" ");
                        assert(" "@ =~= seq![' ']);
                        assert((card_width as u64) as nat == card_width as nat);
                    }
                }
                let ghost r1 = row@;
                proof {
                    assert(r1 == r0 + card_cell(boxes[k as int], i as int, w));
                }
                if k + 1 < rendered.len() {
                    row.append("  ");
                    proof {
                        reveal_strlit("  ");
                        assert("  "@ =~= seq![' ', ' ']);
                    }
                }
                proof {
                    assert(row@ =~= list_row(boxes, i as int, w, k as int + 1));
                }
                k = k + 1;
            }
            let ghost before = lines@;
            lines.push(row);
            proof {
                assert(card_list_lines(cards@, w)[i as int] == list_row(boxes, i as int, w, boxes.len() as int));
                assert(card_list_lines(cards@, w).subrange(0, i as int + 1) =~= card_list_lines(cards@, w).subrange(0, i as int).push(row@));
                assert(lines@.map_values(|l: String| l@) =~= before.map_values(|l: String| l@).push(row@));
            }
            i = i + 1;
        }
        proof {
            assert(card_list_lines(cards@, w).subrange(0, 10) =~= card_list_lines(cards@, w));
        }
        lines
    }
}

impl Player {
    /// The cards' boxes side by side, laid out as `render_card_list` lays them.
    pub fn render_cards(&self, cards: &Vec<Card>, card_width: usize) -> (lines: Vec<String>)
        requires
            forall|j: int| 0 <= j < cards@.len() ==> renderable(#[trigger] cards@[j], card_width as int),
        ensures
            lines@.map_values(|l: String| l@) == card_list_lines(cards@, card_width as int),
    {
        self.render_card_list(cards, card_width)
    }
}

/// Line `i` of a column: its own line, or `fallback` padded to the width
/// when the column has no such line.
pub open spec fn column_line(lines: Seq<Seq<char>>, i: int, fallback: Seq<char>, width: int) -> Seq<char> {
    if i < lines.len() { lines[i] } else { pad_right(fallback, width) }
}

/// The first `n` rows of the board: the panel, the hand after ` H  `, the
/// cards in play after ` P  `, each row ended by a newline.
pub open spec fn board_rows(
    info: Seq<Seq<char>>,
    hand: Seq<Seq<char>>,
    play: Seq<Seq<char>>,
    n: int,
    info_width: int,
    card_width: int,
) -> Seq<char>
    decreases n,
{
    if n <= 0 {
        Seq::empty()
    } else {
        board_rows(info, hand, play, n - 1, info_width, card_width)
            + column_line(info, n - 1, seq![' '], info_width) + seq![' ', 'H', ' ', ' ']
            + column_line(hand, n - 1, seq!['n', 'o', 'n', 'e'], card_width) + seq![' ', 'P', ' ', ' ']
            + column_line(play, n - 1, seq!['n', 'o', 'n', 'e'], card_width) + seq!['\n']
    }
}

/// The player's board: `card_height` rows of the panel, the hand and the
/// cards in play side by side.
pub open spec fn board(p: Player, card_width: int, card_height: int, info_width: int) -> Seq<char> {
    board_rows(
        player_panel(p, card_height, info_width),
        card_list_lines(p.cards_in_hand@, card_width),
        card_list_lines(p.cards_in_play@, card_width),
        card_height,
        info_width,
        card_width,
    )
}

/// Appends line `i` of a column, or `fallback` padded to the width.
fn push_column_line(out: &mut String, lines: &Vec<String>, i: usize, fallback: &str, width: usize)
    ensures
        final(out)@ == old(out)@ + column_line(lines@.map_values(|l: String| l@), i as int, fallback@, width as int),
{
    if i < lines.len() {
        out.append(lines[i].as_str());
        proof {
            assert(lines@.map_values(|l: String| l@)[i as int] == lines@[i as int]@);
        }
    } else {
        push_padded(out, fallback, width);
    }
}

impl Player {
    /// The player's board as text: `card_height` rows, each the panel's line
    /// (`player_info_width` wide), ` H  `, the hand's row, ` P  `, the row of
    /// the cards in play, and a newline; a column without the row is filled
    /// with blanks (the panel) or `none` (the cards).
    pub fn render(&self, card_width: usize, card_height: usize, player_info_width: usize) -> (out: String)
        requires
            card_height >= 1,
            player_info_width >= 10,
            self.stat_manager.stats@.len() < 0x1_0000_0000,
            forall|t: StatType| i16::MIN <= #[trigger] self.stat_manager.total(t) <= i16::MAX,
            forall|j: int| 0 <= j < self.cards_in_hand@.len() ==> renderable(#[trigger] self.cards_in_hand@[j], card_width as int),
            forall|j: int| 0 <= j < self.cards_in_play@.len() ==> renderable(#[trigger] self.cards_in_play@[j], card_width as int),
        ensures
            out@ == board(*self, card_width as int, card_height as int, player_info_width as int),
    {
        let hand = self.render_card_list(&self.cards_in_hand, card_width);
        let play = self.render_card_list(&self.cards_in_play, card_width);
        let info = self.render_player_info(card_height, player_info_width);
        let ghost iv = info@.map_values(|l: String| l@);
        let ghost hv = hand@.map_values(|l: String| l@);
        let ghost pv = play@.map_values(|l: String| l@);
        let mut out = String::new();
        let mut i: usize = 0;
        while i < card_height
            invariant
                i <= card_height,
                iv == info@.map_values(|l: String| l@),
                hv == hand@.map_values(|l: String| l@),
                pv == play@.map_values(|l: String| l@),
                out@ == board_rows(iv, hv, pv, i as int, player_info_width as int, card_width as int),
            decreases card_height - i,
        {
            proof {
                reveal_strlit(" ");
                reveal_strlit("none");
                reveal_strlit(" H  ");
                reveal_strlit(" P  ");
                reveal_strlit("\n");
            }
            push_column_line(&mut out, &info, i, " ", player_info_width);
            out.append(" H  ");
            push_column_line(&mut out, &hand, i, "none", card_width);
            out.append(" P  ");
            push_column_line(&mut out, &play, i, "none", card_width);
            out.append("\n");
            proof {
                assert(" "@ =~= seq![' ']);
                assert("none"@ =~= seq!['n', 'o', 'n', 'e']);
                assert(" H  "@ =~= seq![' ', 'H', ' ', ' ']);
                assert(" P  "@ =~= seq![' ', 'P', ' ', ' ']);
                assert("\n"@ =~= seq!['\n']);
                assert(out@ =~= board_rows(iv, hv, pv, i as int + 1, player_info_width as int, card_width as int));
            }
            i = i + 1;
        }
        out
    }
}

} // verus!
