//! Chart colours per user: a table from user id to a six-digit hexadecimal
//! colour (no leading `#`), with random colours for users it lacks, and the
//! parsing of colour text into its red, green and blue bytes.
use rand::Rng;
use vstd::prelude::*;

use crate::assoc::{keys_unique, lemma_to_map_dom, lemma_to_map_index, lemma_to_map_update, lemma_unique_push, to_map};
use crate::user::User;

verus! {

/// Why colour text could not be read.
#[derive(Debug, Clone, Copy, PartialEq, Eq, Structural)]
pub enum ColorError {
    /// Without its leading `#`, the text is not six characters long.
    BadLength,
    /// A character is not a hexadecimal digit.
    BadDigit,
}

/// The lower-case hexadecimal digit of `d` (0 to 15).
pub open spec fn hex_char(d: int) -> char {
    seq!['0', '1', '2', '3', '4', '5', '6', '7', '8', '9', 'a', 'b', 'c', 'd', 'e', 'f'][d]
}

/// The last `n` hexadecimal digits of `v`, most significant first.
pub open spec fn hex_digits(v: nat, n: nat) -> Seq<char>
    decreases n,
{
    if n == 0 {
        Seq::empty()
    } else {
        hex_digits(v / 16, (n - 1) as nat).push(hex_char((v % 16) as int))
    }
}

/// The value of a hexadecimal digit of either case; -1 for any other character.
pub open spec fn hex_value(c: char) -> int {
    if '0' <= c && c <= '9' {
        c as int - '0' as int
    } else if 'a' <= c && c <= 'f' {
        c as int - 'a' as int + 10
    } else if 'A' <= c && c <= 'F' {
        c as int - 'A' as int + 10
    } else {
        -1
    }
}

/// The colour text without one leading `#`.
pub open spec fn color_body(s: Seq<char>) -> Seq<char> {
    if s.len() > 0 && s[0] == '#' {
        s.drop_first()
    } else {
        s
    }
}

/// The byte written by the two digits of `b` at `i`.
pub open spec fn byte_at(b: Seq<char>, i: int) -> u8 {
    (16 * hex_value(b[i]) + hex_value(b[i + 1])) as u8
}

/// The red, green and blue bytes that colour text `rrggbb` or `#rrggbb` names.
pub open spec fn parsed_color(s: Seq<char>) -> Result<(u8, u8, u8), ColorError> {
    let b = color_body(s);
    if b.len() != 6 {
        Err(ColorError::BadLength)
    } else if exists|i: int| 0 <= i < 6 && hex_value(#[trigger] b[i]) < 0 {
        Err(ColorError::BadDigit)
    } else {
        Ok((byte_at(b, 0), byte_at(b, 2), byte_at(b, 4)))
    }
}

fn hex_value_of(c: char) -> (r: Option<u8>)
    ensures
        hex_value(c) >= 0 ==> r == Some(hex_value(c) as u8),
        hex_value(c) < 0 ==> r is None,
{
    if '0' <= c && c <= '9' {
        Some((c as u32 - '0' as u32) as u8)
    } else if 'a' <= c && c <= 'f' {
        Some((c as u32 - 'a' as u32 + 10) as u8)
    } else if 'A' <= c && c <= 'F' {
        Some((c as u32 - 'A' as u32 + 10) as u8)
    } else {
        None
    }
}

/// Reads colour text `rrggbb` or `#rrggbb` (hexadecimal digits of either case).
pub fn hexcolor_to_rgb(s: &str) -> (r: Result<(u8, u8, u8), ColorError>)
    ensures
        r == parsed_color(s@),
{
    let n = s.unicode_len();
    let skip: usize = if n > 0 && s.get_char(0) == '#' { 1 } else { 0 };
    let ghost b = color_body(s@);
    assert(b =~= s@.subrange(skip as int, n as int));
    if n - skip != 6 {
        return Err(ColorError::BadLength);
    }
    let mut vals: [u8; 6] = [0u8; 6];
    let mut i: usize = 0;
    while i < 6
        invariant
            n == s@.len(),
            n - skip == 6,
            b == s@.subrange(skip as int, n as int),
            b == color_body(s@),
            i <= 6,
            forall|j: int| 0 <= j < i ==> hex_value(#[trigger] b[j]) >= 0 && vals@[j] == hex_value(b[j]),
        decreases 6 - i,
    {
        let c = s.get_char(skip + i);
        assert(c == b[i as int]);
        match hex_value_of(c) {
            Some(v) => {
                vals[i] = v;
            },
            None => {
                assert(hex_value(b[i as int]) < 0);
                return Err(ColorError::BadDigit);
            },
        }
        i = i + 1;
    }
    assert(!exists|j: int| 0 <= j < 6 && hex_value(#[trigger] b[j]) < 0);
    Ok((vals[0] * 16 + vals[1], vals[2] * 16 + vals[3], vals[4] * 16 + vals[5]))
}

pub(crate) fn hex_digit_text(d: u32) -> (r: &'static str)
    requires
        d < 16,
    ensures
        r@ == seq![hex_char(d as int)],
{
    proof {
        reveal_strlit("0");
        reveal_strlit("1");
        reveal_strlit("2");
        reveal_strlit("3");
        reveal_strlit("4");
        reveal_strlit("5");
        reveal_strlit("6");
        reveal_strlit("7");
        reveal_strlit("8");
        reveal_strlit("9");
        reveal_strlit("a");
        reveal_strlit("b");
        reveal_strlit("c");
        reveal_strlit("d");
        reveal_strlit("e");
        reveal_strlit("f");
    }
    let r = match d {
        0 => "0",
        1 => "1",
        2 => "2",
        3 => "3",
        4 => "4",
        5 => "5",
        6 => "6",
        7 => "7",
        8 => "8",
        9 => "9",
        10 => "a",
        11 => "b",
        12 => "c",
        13 => "d",
        14 => "e",
        _ => "f",
    };
    assert(r@ =~= seq![hex_char(d as int)]);
    r
}

/// The last `n` hexadecimal digits of `v`, most significant first.
fn hex_text(v: u32, n: usize) -> (r: String)
    ensures
        r@ == hex_digits(v as nat, n as nat),
    decreases n,
{
    if n == 0 {
        String::new()
    } else {
        let s = hex_text(v / 16, n - 1);
        let r = s.concat(hex_digit_text(v % 16));
        r
    }
}

/// Six lower-case hexadecimal digits of a colour value.
pub fn color_text(v: u32) -> (r: String)
    ensures
        r@ == hex_digits(v as nat, 6),
{
    hex_text(v, 6)
}

/// Relies on rand's `rng` and `Rng::random_range`: a value drawn from the
/// half-open range `0x333333..0xdddddd`.
#[verifier::external_body]
fn random_color_value() -> (r: u32)
    ensures
        0x333333 <= r < 0xdddddd,
{
    rand::rng().random_range(0x333333u32..0xddddddu32)
}

/// The colour table of a database, kept at `<directory>/colors.json`.
pub struct ColorConfig {
    path: String,
    data: Vec<(u64, String)>,
}

/// The mathematical value of a colour table.
pub struct ColorView {
    pub path: Seq<char>,
    pub colors: Map<u64, Seq<char>>,
}

pub open spec fn color_pairs(v: Seq<(u64, String)>) -> Seq<(u64, Seq<char>)> {
    v.map_values(|p: (u64, String)| (p.0, p.1@))
}

impl View for ColorConfig {
    type V = ColorView;

    closed spec fn view(&self) -> ColorView {
        ColorView { path: self.path@, colors: to_map(color_pairs(self.data@)) }
    }
}

impl ColorConfig {
    pub closed spec fn wf(&self) -> bool {
        keys_unique(color_pairs(self.data@))
    }

    /// An empty table kept at `<database_directory>/colors.json`.
    pub fn new(database_directory: &str) -> (r: ColorConfig)
        ensures
            r.wf(),
            r@.path == database_directory@ + "/colors.json"@,
            r@.colors == Map::<u64, Seq<char>>::empty(),
    {
        let r = ColorConfig { path: database_directory.to_owned().concat("/colors.json"), data: Vec::new() };
        assert(color_pairs(r.data@) =~= Seq::empty());
        r
    }

    pub fn path(&self) -> (r: &String)
        ensures
            r@ == self@.path,
    {
        &self.path
    }

    /// Every user id with its colour, each id once.
    pub fn entries(&self) -> (r: &Vec<(u64, String)>)
        requires
            self.wf(),
        ensures
            keys_unique(color_pairs(r@)),
            to_map(color_pairs(r@)) == self@.colors,
    {
        &self.data
    }

    fn find(&self, user_id: u64) -> (r: Option<usize>)
        requires
            self.wf(),
        ensures
            r matches Some(i) ==> i < self.data@.len() && self.data@[i as int].0 == user_id
                && self@.colors.contains_key(user_id) && self@.colors[user_id] == self.data@[i as int].1@,
            r is None ==> !self@.colors.contains_key(user_id),
    {
        let ghost p = color_pairs(self.data@);
        let mut i: usize = 0;
        while i < self.data.len()
            invariant
                i <= self.data@.len(),
                p == color_pairs(self.data@),
                keys_unique(p),
                forall|j: int| 0 <= j < i ==> p[j].0 != user_id,
            decreases self.data@.len() - i,
        {
            if self.data[i].0 == user_id {
                proof {
                    lemma_to_map_index(p, i as int);
                }
                return Some(i);
            }
            i = i + 1;
        }
        proof {
            lemma_to_map_dom(p, user_id);
        }
        None
    }

    /// The colour of a user, if the table has one.
    pub fn get_color(&self, user_id: u64) -> (r: Option<&String>)
        requires
            self.wf(),
        ensures
            r matches Some(c) ==> self@.colors.contains_key(user_id) && c@ == self@.colors[user_id],
            r is None ==> !self@.colors.contains_key(user_id),
    {
        match self.find(user_id) {
            Some(i) => Some(&self.data[i].1),
            None => None,
        }
    }

    /// Sets the colour of a user.
    pub fn set_color(&mut self, user_id: u64, color: &str)
        requires
            old(self).wf(),
        ensures
            final(self).wf(),
            final(self)@ == (ColorView { colors: old(self)@.colors.insert(user_id, color@), ..old(self)@ }),
    {
        let ghost p = color_pairs(self.data@);
        let c = color.to_owned();
        match self.find(user_id) {
            Some(i) => {
                self.data.set(i, (user_id, c));
                proof {
                    lemma_to_map_update(p, i as int, color@);
                    assert(color_pairs(self.data@) =~= p.update(i as int, (p[i as int].0, color@)));
                }
            },
            None => {
                self.data.push((user_id, c));
                proof {
                    lemma_unique_push(p, user_id, color@);
                    assert(color_pairs(self.data@) =~= p.push((user_id, color@)));
                }
            },
        }
    }

    /// The colour of a user, or the six hexadecimal digits of `fallback`.
    pub fn color_or(&self, user_id: u64, fallback: u32) -> (r: String)
        requires
            self.wf(),
        ensures
            r@ == if self@.colors.contains_key(user_id) {
                self@.colors[user_id]
            } else {
                hex_digits(fallback as nat, 6)
            },
    {
        match self.get_color(user_id) {
            Some(c) => c.clone(),
            None => color_text(fallback),
        }
    }

    /// A colour for each user, in order: its own, or a random one drawn from
    /// `0x333333..0xdddddd` for a user the table lacks.
    pub fn get_colors(&self, users: &Vec<User>) -> (r: Vec<(u64, String)>)
        requires
            self.wf(),
        ensures
            r@.len() == users@.len(),
            forall|i: int| 0 <= i < r@.len() ==> {
                let id = users@[i]@.id;
                &&& (#[trigger] r@[i]).0 == id
                &&& self@.colors.contains_key(id) ==> r@[i].1@ == self@.colors[id]
                &&& !self@.colors.contains_key(id) ==> exists|v: nat| 0x333333 <= v < 0xdddddd && r@[i].1@ == hex_digits(v, 6)
            },
    {
        let mut r: Vec<(u64, String)> = Vec::new();
        let mut i: usize = 0;
        while i < users.len()
            invariant
                self.wf(),
                i <= users@.len(),
                r@.len() == i,
                forall|j: int| 0 <= j < i ==> {
                    let id = users@[j]@.id;
                    &&& (#[trigger] r@[j]).0 == id
                    &&& self@.colors.contains_key(id) ==> r@[j].1@ == self@.colors[id]
                    &&& !self@.colors.contains_key(id) ==> exists|v: nat| 0x333333 <= v < 0xdddddd && r@[j].1@ == hex_digits(v, 6)
                },
            decreases users@.len() - i,
        {
            let id = users[i].id();
            let c = match self.get_color(id) {
                Some(c) => c.clone(),
                None => {
                    let v = random_color_value();
                    let t = color_text(v);
                    assert(0x333333 <= v as nat && (v as nat) < 0xdddddd && t@ == hex_digits(v as nat, 6));
                    t
                },
            };
            r.push((id, c));
            i = i + 1;
        }
        r
    }
}

} // verus!
