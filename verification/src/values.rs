//! Basic value types used throughout device descriptions.

use vstd::prelude::*;
use vstd::std_specs::cmp::PartialEqSpecImpl;
use crate::text::{
    all_digits, chars_of, decimal, find_char, first_index, is_digit, is_whitespace, join,
    join_chars, lemma_decimal, lemma_first_index, lemma_parse_unsigned_decimal, lemma_split_join,
    parse_unsigned, parse_unsigned_range, push_decimal, range_eq, split, split_chars,
    string_from_chars, trim, trim_range,
};

verus! {

/// A character that may appear in a [Name]: a space, or one of the printable ASCII characters
/// other than `!`, `$`, `&`, `,`, `.`, `?`, `[`, `\`, `]`, `^`, `{`, `|`, `}` and `~`.
pub open spec fn valid_name_char(c: char) -> bool {
    ||| c == ' '
    ||| '"' <= c && c <= '#'
    ||| c == '%'
    ||| '\'' <= c && c <= '+'
    ||| c == '-'
    ||| '/' <= c && c <= '>'
    ||| '@' <= c && c <= 'Z'
    ||| '_' <= c && c <= 'z'
}

/// Every character of `s` may appear in a [Name].
pub open spec fn valid_name(s: Seq<char>) -> bool {
    forall|i: int| 0 <= i < s.len() ==> valid_name_char(#[trigger] s[i])
}

/// `s` with every character that may not appear in a [Name] replaced by `_`.
pub open spec fn lossy_name(s: Seq<char>) -> Seq<char> {
    s.map_values(|c: char| if valid_name_char(c) { c } else { '_' })
}

/// Returns whether `ch` may not appear in a [Name].
pub fn is_invalid_name_char(ch: char) -> (r: bool)
    ensures
        r == !valid_name_char(ch),
{
    let is_valid = ch == ' ' || ('"' <= ch && ch <= '#') || ch == '%' || ('\'' <= ch && ch <= '+')
        || ch == '-' || ('/' <= ch && ch <= '>') || ('@' <= ch && ch <= 'Z') || ('_' <= ch && ch
        <= 'z');
    !is_valid
}

/// The characters allowed in names are the printable ASCII characters from the space to `~`,
/// except `!`, `$`, `&`, `,`, `.`, `?`, `[`, `\`, `]`, `^`, `{`, `|`, `}` and `~`: in particular
/// every digit, letter, `/`, `:`, `;`, `<`, `=`, `>`, `@`, `_`, `` ` ``, `'`, `(`, `)`, `*`,
/// `+`, `-`, `"`, `#` and `%` is allowed.
pub proof fn lemma_name_chars(c: char)
    ensures
        valid_name_char(c) <==> (' ' <= c && c <= '~' && c != '!' && c != '$' && c != '&' && c
            != ',' && c != '.' && c != '?' && c != '[' && c != '\\' && c != ']' && c != '^' && c
            != '{' && c != '|' && c != '}' && c != '~'),
{
}

/// A text made only of allowed characters is kept as it is by the lossy conversion, and read as
/// a link it is the link of that single name.
pub proof fn lemma_valid_name_kept(s: Seq<char>)
    requires
        valid_name(s),
    ensures
        lossy_name(s) == s,
        split(s, '.').map_values(|p: Seq<char>| lossy_name(p)) == seq![s],
{
    assert(lossy_name(s) =~= s);
    let parts = seq![s];
    assert forall|k: int, i: int| 0 <= k < parts.len() && 0 <= i < parts[k].len() implies #[trigger] parts[k][i]
        != '.' by {
        assert(valid_name_char(s[i]));
    }
    lemma_split_join(parts, '.');
    assert(join(parts, '.') == s);
    assert(split(s, '.').map_values(|p: Seq<char>| lossy_name(p)) =~= seq![s]);
}

/// A unique object name.
///
/// Only the characters the format allows in names may appear: see [valid_name_char].
#[derive(Debug, Default, Hash)]
pub struct Name(String);

impl View for Name {
    type V = Seq<char>;

    closed spec fn view(&self) -> Seq<char> {
        self.0@
    }
}

impl Name {
    #[verifier::type_invariant]
    spec fn only_allowed_chars(self) -> bool {
        valid_name(self.0@)
    }

    /// Attempts to construct a [Name] from a string value.
    ///
    /// This function fails if the string is not entirely made up of the allowed characters. On
    /// failure the original string value is returned.
    pub fn new(value: String) -> (r: Result<Name, String>)
        ensures
            valid_name(value@) ==> (r matches Ok(n) && n@ == value@),
            !valid_name(value@) ==> (r matches Err(v) && v@ == value@),
    {
        let chars = chars_of(value.as_str());
        let mut i: usize = 0;
        while i < chars.len()
            invariant
                chars@ == value@,
                i <= chars.len(),
                forall|j: int| 0 <= j < i ==> valid_name_char(#[trigger] chars@[j]),
            decreases chars.len() - i,
        {
            if is_invalid_name_char(chars[i]) {
                return Err(value);
            }
            i = i + 1;
        }
        Ok(Name(value))
    }

    /// Constructs a [Name] from a string value, replacing characters that may not appear in a
    /// name with `_`.
    pub fn new_lossy(value: String) -> (r: Name)
        ensures
            r@ == lossy_name(value@),
    {
        let chars = chars_of(value.as_str());
        let mut out: Vec<char> = Vec::new();
        let mut i: usize = 0;
        while i < chars.len()
            invariant
                chars@ == value@,
                i <= chars.len(),
                out@ == lossy_name(value@).subrange(0, i as int),
            decreases chars.len() - i,
        {
            let c = chars[i];
            if is_invalid_name_char(c) {
                out.push('_');
            } else {
                out.push(c);
            }
            assert(out@ =~= lossy_name(value@).subrange(0, i + 1));
            i = i + 1;
        }
        assert(out@ =~= lossy_name(value@));
        Name(string_from_chars(&out))
    }

    /// The name as a string slice; it holds only allowed characters.
    pub fn as_str(&self) -> (r: &str)
        ensures
            r@ == self@,
            valid_name(self@),
    {
        proof {
            use_type_invariant(self);
        }
        self.0.as_str()
    }

    /// The name as an owned string.
    pub fn to_string(&self) -> (r: String)
        ensures
            r@ == self@,
    {
        self.0.clone()
    }

    /// The name as an owned string, consuming it.
    pub fn into_string(self) -> (r: String)
        ensures
            r@ == self@,
    {
        self.0
    }

    /// Whether the name spells exactly `other`.
    pub fn is(&self, other: &str) -> (r: bool)
        ensures
            r == (self@ == other@),
    {
        let a = chars_of(self.0.as_str());
        assert(a@.subrange(0, a@.len() as int) =~= a@);
        range_eq(&a, 0, a.len(), other)
    }
}

impl Clone for Name {
    fn clone(&self) -> (r: Self)
        ensures
            r@ == self@,
    {
        proof {
            use_type_invariant(self);
        }
        Name(self.0.clone())
    }
}

impl PartialEq for Name {
    fn eq(&self, other: &Self) -> (r: bool) {
        self.0 == other.0
    }
}

impl PartialEqSpecImpl for Name {
    open spec fn obeys_eq_spec() -> bool {
        true
    }

    open spec fn eq_spec(&self, other: &Self) -> bool {
        self@ == other@
    }
}

impl Eq for Name {

}


/// The texts of a sequence of names.
pub open spec fn names_view(names: Seq<Name>) -> Seq<Seq<char>> {
    names.map_values(|n: Name| n@)
}

pub proof fn lemma_names_view_push(names: Seq<Name>, n: Name)
    ensures
        names_view(names.push(n)) == names_view(names).push(n@),
{
    assert(names_view(names.push(n)) =~= names_view(names).push(n@));
}

/// The text of an optional string attribute: `None` for the empty text.
pub fn non_empty_string(value: String) -> (r: Option<String>)
    ensures
        value@.len() == 0 ==> r is None,
        value@.len() > 0 ==> (r matches Some(s) && s@ == value@),
{
    if value.as_str().unicode_len() == 0 {
        None
    } else {
        Some(value)
    }
}

/// A link to an element.
///
/// Node links are made of a series of [Name]s which form a path of object names. The path
/// starting point depends on where the node link is used.
///
/// Text format: `Name.Name.Name...`
#[derive(Debug, Hash)]
pub struct Node(Vec<Name>);

impl View for Node {
    type V = Seq<Seq<char>>;

    closed spec fn view(&self) -> Seq<Seq<char>> {
        names_view(self.0@)
    }
}

impl Node {
    /// Constructs a [Node] from a list of [Name]s.
    pub fn new(names: Vec<Name>) -> (r: Node)
        ensures
            r@ == names_view(names@),
    {
        Node(names)
    }

    /// The names making up the link, first to last.
    pub fn names(&self) -> (r: &[Name])
        ensures
            names_view(r@) == self@,
    {
        self.0.as_slice()
    }

    /// Reads a node link from its text form: the text is split at every `.` and each piece
    /// becomes a name, with characters that may not appear in a name replaced by `_`.
    pub fn parse(text: &str) -> (r: Node)
        ensures
            r@ == split(text@, '.').map_values(|p: Seq<char>| lossy_name(p)),
    {
        let chars = chars_of(text);
        let pieces = split_chars(&chars, '.');
        let ghost target = split(text@, '.').map_values(|p: Seq<char>| lossy_name(p));
        let mut names: Vec<Name> = Vec::new();
        let mut i: usize = 0;
        while i < pieces.len()
            invariant
                i <= pieces.len(),
                pieces@.len() == split(chars@, '.').len(),
                forall|k: int| 0 <= k < pieces@.len() ==> #[trigger] pieces@[k]@ == split(chars@, '.')[k],
                chars@ == text@,
                target == split(text@, '.').map_values(|p: Seq<char>| lossy_name(p)),
                names_view(names@) == target.subrange(0, i as int),
            decreases pieces.len() - i,
        {
            let piece = string_from_chars(&pieces[i]);
            let name = Name::new_lossy(piece);
            let ghost old_names = names@;
            names.push(name);
            proof {
                lemma_names_view_push(old_names, name);
                assert(target[i as int] == lossy_name(split(text@, '.')[i as int]));
            }
            i = i + 1;
            assert(names_view(names@) =~= target.subrange(0, i as int));
        }
        assert(target.subrange(0, i as int) =~= target);
        Node(names)
    }

    /// The text form of the link: the names joined by `.`.
    pub fn to_text(&self) -> (r: String)
        ensures
            r@ == join(self@, '.'),
    {
        let mut parts: Vec<Vec<char>> = Vec::new();
        let mut i: usize = 0;
        while i < self.0.len()
            invariant
                i <= self.0@.len(),
                parts@.map_values(|p: Vec<char>| p@) == names_view(self.0@).subrange(0, i as int),
            decreases self.0@.len() - i,
        {
            let c = chars_of(self.0[i].as_str());
            let ghost old_parts = parts@;
            parts.push(c);
            proof {
                assert(parts@.map_values(|p: Vec<char>| p@) =~= old_parts.map_values(|p: Vec<char>| p@).push(c@));
            }
            i = i + 1;
            assert(parts@.map_values(|p: Vec<char>| p@) =~= names_view(self.0@).subrange(0, i as int));
        }
        assert(names_view(self.0@).subrange(0, i as int) =~= names_view(self.0@));
        let out = join_chars(&parts, '.');
        string_from_chars(&out)
    }
}

impl Clone for Node {
    fn clone(&self) -> (r: Self)
        ensures
            r@ == self@,
    {
        let mut names: Vec<Name> = Vec::new();
        let mut i: usize = 0;
        while i < self.0.len()
            invariant
                i <= self.0@.len(),
                names_view(names@) == names_view(self.0@).subrange(0, i as int),
            decreases self.0@.len() - i,
        {
            let n = self.0[i].clone();
            let ghost old_names = names@;
            names.push(n);
            proof {
                lemma_names_view_push(old_names, n);
            }
            i = i + 1;
            assert(names_view(names@) =~= names_view(self.0@).subrange(0, i as int));
        }
        assert(names_view(self.0@).subrange(0, i as int) =~= names_view(self.0@));
        Node(names)
    }
}

impl PartialEq for Node {
    fn eq(&self, other: &Self) -> (r: bool) {
        if self.0.len() != other.0.len() {
            assert(self@.len() != other@.len());
            return false;
        }
        let mut i: usize = 0;
        while i < self.0.len()
            invariant
                i <= self.0@.len(),
                self.0@.len() == other.0@.len(),
                forall|k: int| 0 <= k < i ==> (#[trigger] self.0@[k])@ == other.0@[k]@,
            decreases self.0@.len() - i,
        {
            if !self.0[i].is(other.0[i].as_str()) {
                assert(self@[i as int] != other@[i as int]);
                return false;
            }
            i = i + 1;
        }
        assert(self@ =~= other@);
        true
    }
}

impl PartialEqSpecImpl for Node {
    open spec fn obeys_eq_spec() -> bool {
        true
    }

    open spec fn eq_spec(&self, other: &Self) -> bool {
        self@ == other@
    }
}

impl Eq for Node {

}

/// The only name of a link with at most one name: `None` for a link of two or more names, the
/// first name otherwise (also `None` for an empty link).
pub fn single(names: &[Name]) -> (r: Option<&Name>)
    ensures
        names@.len() == 1 ==> r == Some(&names@[0]),
        names@.len() != 1 ==> r is None,
{
    if names.len() > 1 {
        return None;
    }
    if names.len() == 0 {
        None
    } else {
        Some(&names[0])
    }
}

/// A link printed as text and read back is the same link, when it has at least one name.
pub proof fn lemma_node_text_roundtrip(names: Seq<Seq<char>>)
    requires
        names.len() >= 1,
        forall|k: int| 0 <= k < names.len() ==> valid_name(#[trigger] names[k]),
    ensures
        split(join(names, '.'), '.').map_values(|p: Seq<char>| lossy_name(p)) == names,
{
    assert forall|k: int, i: int|
        0 <= k < names.len() && 0 <= i < names[k].len() implies #[trigger] names[k][i] != '.' by {
        assert(valid_name_char(names[k][i]));
    }
    lemma_split_join(names, '.');
    assert forall|k: int| 0 <= k < names.len() implies lossy_name(names[k]) == names[k] by {
        assert(lossy_name(names[k]) =~= names[k]);
    }
    assert(names.map_values(|p: Seq<char>| lossy_name(p)) =~= names);
}

/// Text without whitespace at either end is its own trimmed form.
pub proof fn lemma_trim_plain(s: Seq<char>)
    requires
        s.len() > 0 ==> !is_whitespace(s[0]) && !is_whitespace(s.last()),
    ensures
        trim(s) == s,
{
}

/// Decimal digits are not whitespace, nor `.`, `/` or `,`.
pub proof fn lemma_decimal_plain(n: nat)
    ensures
        trim(decimal(n)) == decimal(n),
        forall|i: int| 0 <= i < decimal(n).len() ==> #[trigger] decimal(n)[i] != '.'
            && decimal(n)[i] != '/' && decimal(n)[i] != ',' && decimal(n)[i] != 's' && is_digit(decimal(n)[i]),
{
    lemma_decimal(n);
    let d = decimal(n);
    assert(all_digits(d));
    assert(is_digit(d[0]) && is_digit(d[d.len() - 1]));
    lemma_trim_plain(d);
}

/// The absolute value of the address of `universe` and `address` (both counted from 1):
/// the universe in the 23 high bits and the address in the 9 low bits. A universe of 0 counts as
/// 1 and higher bits of the universe are dropped; an address of 0 counts as 1, and addresses past
/// 512 count on into the following universes.
pub open spec fn universe_address_absolute(universe: nat, address: nat) -> nat {
    let u: nat = if universe >= 1 { (universe - 1) as nat } else { 0 };
    let a: nat = if address >= 1 { (address - 1) as nat } else { 0 };
    (u % 8388608) * 512 + a
}

/// What [DmxAddress::parse] accepts: `Universe.Address` (split at the first `.`), or a single
/// absolute integer; each number may be surrounded by whitespace. A universe and address whose
/// absolute address does not fit in 32 bits are refused.
pub open spec fn dmx_address_from_text(s: Seq<char>) -> Option<nat> {
    match first_index(s, '.') {
        Some(i) => match (
            parse_unsigned(trim(s.subrange(0, i)), u32::MAX as nat),
            parse_unsigned(trim(s.subrange(i + 1, s.len() as int)), u32::MAX as nat),
        ) {
            (Some(u), Some(a)) => if universe_address_absolute(u, a) <= u32::MAX {
                Some(universe_address_absolute(u, a))
            } else {
                None
            },
            _ => None,
        },
        None => parse_unsigned(trim(s), u32::MAX as nat),
    }
}

/// A DMX address value consisting of a universe and an address.
///
/// There are 2^23 universes and 2^9 (512) addresses, combined making 32 bits of information.
/// Universe and address numbers are conventionally ordered starting from 1.
///
/// Text format: an absolute integer, or `Universe.Address`.
#[derive(Debug, Clone, Copy, PartialEq, Eq, Hash)]
pub struct DmxAddress(pub u32);

impl DmxAddress {
    /// Constructs a [DmxAddress] from a single absolute value.
    ///
    /// Absolute values contain both the universe and address. The 23 highest bits are the
    /// universe, and the 9 lowest bits are the address.
    pub fn from_absolute(value: u32) -> (r: DmxAddress)
        ensures
            r.0 == value,
    {
        DmxAddress(value)
    }

    /// Constructs a [DmxAddress] from a separate universe and address.
    ///
    /// The universe is expected to be in the range 1..2^23, and the address is expected to be
    /// in the range 1..2^9. An address outside that range counts on into the next universes; the
    /// absolute address must fit in 32 bits.
    pub fn from_universe_address(universe: u32, address: u32) -> (r: DmxAddress)
        requires
            universe_address_absolute(universe as nat, address as nat) <= u32::MAX,
        ensures
            r.0 as nat == universe_address_absolute(universe as nat, address as nat),
    {
        let u = universe.saturating_sub(1) % 8388608;
        let a = address.saturating_sub(1);
        DmxAddress(u * 512 + a)
    }

    /// Returns the address as an absolute value.
    pub fn absolute(self) -> (r: u32)
        ensures
            r == self.0,
    {
        self.0
    }

    /// Returns the universe part of the [DmxAddress], in the range 1..2^23.
    pub fn universe(self) -> (r: u32)
        ensures
            r == self.0 / 512 + 1,
    {
        self.0 / 512 + 1
    }

    /// Returns the address part of the [DmxAddress], in the range 1..2^9.
    pub fn address(self) -> (r: u32)
        ensures
            r == self.0 % 512 + 1,
    {
        self.0 % 512 + 1
    }

    /// Reads an address from its text form.
    pub fn parse(text: &str) -> (r: Option<DmxAddress>)
        ensures
            r matches Some(a) ==> dmx_address_from_text(text@) == Some(a.0 as nat),
            r is None ==> dmx_address_from_text(text@) is None,
    {
        let v = chars_of(text);
        match find_char(&v, 0, v.len(), '.') {
            Some(i) => {
                assert(v@.subrange(0, v@.len() as int) =~= v@);
                let (a0, b0) = trim_range(&v, 0, i);
                let (a1, b1) = trim_range(&v, i + 1, v.len());
                let universe = parse_unsigned_range(&v, a0, b0, u32::MAX as u64);
                let address = parse_unsigned_range(&v, a1, b1, u32::MAX as u64);
                match (universe, address) {
                    (Some(u), Some(a)) => {
                        let uu: u64 = if u >= 1 { (u - 1) % 8388608 } else { 0 };
                        let aa: u64 = if a >= 1 { a - 1 } else { 0 };
                        if uu * 512 + aa <= u32::MAX as u64 {
                            Some(DmxAddress::from_universe_address(u as u32, a as u32))
                        } else {
                            None
                        }
                    },
                    _ => None,
                }
            },
            None => {
                assert(v@.subrange(0, v@.len() as int) =~= v@);
                let (a0, b0) = trim_range(&v, 0, v.len());
                match parse_unsigned_range(&v, a0, b0, u32::MAX as u64) {
                    Some(x) => Some(DmxAddress(x as u32)),
                    None => None,
                }
            },
        }
    }

    /// The text form `Universe.Address`.
    pub fn to_text(self) -> (r: String)
        ensures
            r@ == decimal((self.0 / 512 + 1) as nat) + seq!['.'] + decimal((self.0 % 512 + 1) as nat),
    {
        let mut out: Vec<char> = Vec::new();
        push_decimal(&mut out, self.universe() as u64);
        out.push('.');
        push_decimal(&mut out, self.address() as u64);
        string_from_chars(&out)
    }
}

/// An address printed as text and read back is the same address.
pub proof fn lemma_dmx_address_text_roundtrip(a: u32)
    ensures
        dmx_address_from_text(
            decimal((a / 512 + 1) as nat) + seq!['.'] + decimal((a % 512 + 1) as nat),
        ) == Some(a as nat),
{
    let u: nat = (a / 512 + 1) as nat;
    let ad: nat = (a % 512 + 1) as nat;
    let du = decimal(u);
    let da = decimal(ad);
    let s = du + seq!['.'] + da;
    lemma_decimal_plain(u);
    lemma_decimal_plain(ad);
    lemma_first_index(s, '.');
    assert(s[du.len() as int] == '.');
    assert forall|j: int| 0 <= j < du.len() implies s[j] != '.' by {
        assert(s[j] == du[j]);
    }
    assert(first_index(s, '.') == Some(du.len() as int));
    assert(s.subrange(0, du.len() as int) =~= du);
    assert(s.subrange(du.len() as int + 1, s.len() as int) =~= da);
    lemma_parse_unsigned_decimal(u, u32::MAX as nat);
    lemma_parse_unsigned_decimal(ad, u32::MAX as nat);
    assert(universe_address_absolute(u, ad) == a as nat);
}

/// `256` to the power `k`: the number of values of `k` bytes.
pub open spec fn p256(k: nat) -> nat
    decreases k,
{
    if k == 0 {
        1
    } else {
        256 * p256((k - 1) as nat)
    }
}

pub proof fn lemma_p256_adds(a: nat, b: nat)
    ensures
        p256(a + b) == p256(a) * p256(b),
        p256(a) >= 1,
    decreases a,
{
    if a > 0 {
        lemma_p256_adds((a - 1) as nat, b);
        assert(p256(a + b) == 256 * p256((a - 1 + b) as nat));
        assert(256 * (p256((a - 1) as nat) * p256(b)) == (256 * p256((a - 1) as nat)) * p256(b))
            by (nonlinear_arith);
    } else {
        assert(p256(0) == 1);
        assert(a + b == b);
    }
}

pub proof fn lemma_p256_small()
    ensures
        p256(0) == 1,
        p256(1) == 256,
        p256(2) == 65536,
        p256(3) == 16777216,
        p256(4) == 4294967296,
        p256(5) == 1099511627776,
        p256(6) == 281474976710656,
        p256(7) == 72057594037927936,
        p256(8) == 18446744073709551616,
{
    reveal_with_fuel(p256, 9);
}

pub proof fn lemma_p256_increases(a: nat, b: nat)
    requires
        a <= b,
    ensures
        p256(a) <= p256(b),
{
    lemma_p256_adds(a, (b - a) as nat);
    lemma_p256_adds((b - a) as nat, 0);
    assert(p256(a) * p256((b - a) as nat) >= p256(a)) by (nonlinear_arith)
        requires
            p256((b - a) as nat) >= 1,
            p256(a) >= 1,
    ;
}

/// The largest value that fits in `bytes` bytes within a `u64`.
pub open spec fn max_for_bytes(bytes: nat) -> nat {
    if bytes >= 8 {
        u64::MAX as nat
    } else {
        (p256(bytes) - 1) as nat
    }
}

/// The value `v` of `b` bytes written in `n` bytes by repeating its bytes from the most
/// significant end: the pattern of `v` is repeated as often as it fits, and the last copy is cut
/// to its most significant bytes. For `n <= b` this is the `n` most significant bytes of `v`.
pub open spec fn mirror_fill(v: nat, b: nat, n: nat) -> nat
    decreases n,
{
    if b == 0 {
        0
    } else if n <= b {
        v / p256((b - n) as nat)
    } else {
        v * p256((n - b) as nat) + mirror_fill(v, b, (n - b) as nat)
    }
}

/// The value `v` of `b` bytes converted to `n` bytes: shrinking keeps the most significant
/// bytes; growing shifts the value up when `shifting` and mirrors its bytes otherwise.
pub open spec fn convert_bytes(v: nat, b: nat, shifting: bool, n: nat) -> nat {
    if n == 0 {
        0
    } else if shifting && n > b {
        v * p256((n - b) as nat)
    } else {
        mirror_fill(v, b, n)
    }
}

/// The replacement of disallowed characters always gives a valid name.
pub proof fn lemma_lossy_name_valid(s: Seq<char>)
    ensures
        valid_name(lossy_name(s)),
{
    assert forall|i: int| 0 <= i < lossy_name(s).len() implies valid_name_char(#[trigger] lossy_name(s)[i]) by {
        assert(valid_name_char('_'));
    }
}

/// Text made only of allowed characters is left unchanged by the replacement, so that
/// replacing twice is replacing once.
pub proof fn lemma_lossy_name_identity(s: Seq<char>)
    ensures
        valid_name(s) ==> lossy_name(s) == s,
        lossy_name(lossy_name(s)) == lossy_name(s),
{
    assert(valid_name(s) ==> lossy_name(s) =~= s);
    lemma_lossy_name_valid(s);
    assert(lossy_name(lossy_name(s)) =~= lossy_name(s));
}

/// An address built from a universe in 1..=2^23 and an address in 1..=512 gives that universe
/// and that address back.
pub proof fn lemma_universe_address_roundtrip(universe: nat, address: nat)
    requires
        1 <= universe <= 8388608,
        1 <= address <= 512,
    ensures
        universe_address_absolute(universe, address) < 0x1_0000_0000,
        universe_address_absolute(universe, address) / 512 + 1 == universe,
        universe_address_absolute(universe, address) % 512 + 1 == address,
{
    let u = (universe - 1) as int;
    let a = (address - 1) as int;
    assert(u % 8388608 == u);
    let x = u * 512 + a;
    assert(universe_address_absolute(universe, address) == x);
    vstd::arithmetic::div_mod::lemma_fundamental_div_mod_converse_div(x, 512, u, a);
    vstd::arithmetic::div_mod::lemma_fundamental_div_mod_converse_mod(x, 512, u, a);
}

/// Splitting an absolute address into universe and address and joining them again gives the
/// absolute address back.
pub proof fn lemma_absolute_roundtrip(value: u32)
    ensures
        universe_address_absolute((value / 512 + 1) as nat, (value % 512 + 1) as nat) == value,
{
    let u = value / 512;
    let a = value % 512;
    assert(u < 8388608);
    assert(u % 8388608 == u);
    vstd::arithmetic::div_mod::lemma_fundamental_div_mod(value as int, 512);
}

/// The mirrored form of a value of `b` bytes in `k` bytes fits in `k` bytes.
pub proof fn lemma_mirror_fill_bound(v: nat, b: nat, k: nat)
    requires
        b >= 1,
        v < p256(b),
    ensures
        mirror_fill(v, b, k) < p256(k),
    decreases k,
{
    if k <= b {
        lemma_p256_adds((b - k) as nat, k);
        assert(((b - k) as nat + k) as nat == b);
        vstd::arithmetic::div_mod::lemma_multiply_divide_lt(v as int, p256((b - k) as nat) as int, p256(k) as int);
    } else {
        let d = (k - b) as nat;
        lemma_mirror_fill_bound(v, b, d);
        lemma_p256_adds(b, d);
        assert((b + d) as nat == k);
        assert(v * p256(d) + mirror_fill(v, b, d) < p256(b) * p256(d)) by (nonlinear_arith)
            requires
                v < p256(b),
                mirror_fill(v, b, d) < p256(d),
                v + 1 <= p256(b),
        {
            assert((v + 1) * p256(d) <= p256(b) * p256(d));
        }
    }
}

/// Converting a value to its own size gives it back.
pub proof fn lemma_convert_same_size(v: nat, b: nat, shifting: bool)
    requires
        b >= 1,
        v < p256(b),
    ensures
        convert_bytes(v, b, shifting, b) == v,
{
    assert(p256(0) == 1);
    assert(mirror_fill(v, b, b) == v / p256(0));
    assert(v / 1 == v);
}

/// Converting a value to a larger size and back to its own gives it back, whether its bytes
/// are shifted or mirrored.
pub proof fn lemma_convert_grow_shrink(v: nat, b: nat, shifting: bool, n: nat)
    requires
        1 <= b <= n,
        v < p256(b),
    ensures
        convert_bytes(convert_bytes(v, b, shifting, n), n, shifting, b) == v,
{
    let d = (n - b) as nat;
    lemma_p256_adds(d, 0);
    let p = p256(d);
    if n == b {
        assert(p256(0) == 1);
    } else if shifting {
        let w = v * p;
        vstd::arithmetic::div_mod::lemma_fundamental_div_mod_converse_div(w as int, p as int, v as int, 0);
    } else {
        lemma_mirror_fill_bound(v, b, d);
        let r = mirror_fill(v, b, d);
        let w = v * p + r;
        assert(mirror_fill(v, b, n) == w);
        vstd::arithmetic::div_mod::lemma_fundamental_div_mod_converse_div(w as int, p as int, v as int, r as int);
    }
}

fn pow256(k: u8) -> (r: u64)
    requires
        k < 8,
    ensures
        r as nat == p256(k as nat),
{
    proof {
        lemma_p256_small();
    }
    match k {
        0 => 1,
        1 => 256,
        2 => 65536,
        3 => 16777216,
        4 => 4294967296,
        5 => 1099511627776,
        6 => 281474976710656,
        _ => 72057594037927936,
    }
}

fn max_value_for_bytes(bytes: u8) -> (r: u64)
    ensures
        r as nat == max_for_bytes(bytes as nat),
{
    if bytes >= 8 {
        u64::MAX
    } else {
        proof {
            lemma_p256_adds(bytes as nat, 0);
        }
        pow256(bytes) - 1
    }
}

/// The value of a DMX parameter.
///
/// This type defines both a value and a byte count, without depending on the resolution of the
/// channel the value is applied to.
///
/// When converting a [DmxValue] to the value for a channel, one of two conventions are used:
///  - If the value has the `shifting` flag, bytes in the value are shifted to the new size.
///    For example `255/1s` in a 16 bit channel will result in `65280`.
///  - Otherwise, bytes in the value are mirrored to the new size. For example `255/1` in a 16
///    bit channel will result in `65535`.
///
/// Text format: `value/n` (mirroring) or `value/ns` (shifting).
#[derive(Debug, Clone, Copy, PartialEq, Eq, Hash)]
pub struct DmxValue {
    bytes: u8,
    value: u64,
    shifting: bool,
}

impl View for DmxValue {
    /// The byte count, the value and the shifting flag.
    type V = (u8, u64, bool);

    closed spec fn view(&self) -> (u8, u64, bool) {
        (self.bytes, self.value, self.shifting)
    }
}

/// A byte count and a value that make a valid [DmxValue]: at least one byte, and a value that
/// fits in that many bytes.
pub open spec fn dmx_value_fits(bytes: nat, value: nat) -> bool {
    bytes >= 1 && value <= max_for_bytes(bytes)
}

impl DmxValue {
    #[verifier::type_invariant]
    spec fn fits(self) -> bool {
        dmx_value_fits(self.bytes as nat, self.value as nat)
    }

    /// The number of bytes of the associated `value`.
    pub fn bytes(self) -> (r: u8)
        ensures
            r == self@.0,
            dmx_value_fits(self@.0 as nat, self@.1 as nat),
    {
        proof {
            use_type_invariant(self);
        }
        self.bytes
    }

    /// The concrete value; it fits in `bytes` bytes.
    pub fn value(self) -> (r: u64)
        ensures
            r == self@.1,
    {
        self.value
    }

    /// Whether to shift the `value` when converting to a larger byte size.
    pub fn shifting(self) -> (r: bool)
        ensures
            r == self@.2,
    {
        self.shifting
    }

    /// Attempts to construct a DmxValue.
    ///
    /// Construction fails if the value is larger than the maximum value that can fit into the
    /// provided number of bytes.
    pub fn new(value: u64, bytes: u8, shifting: bool) -> (r: Option<DmxValue>)
        requires
            bytes >= 1,
        ensures
            value as nat <= max_for_bytes(bytes as nat) ==> (r matches Some(d) && d@ == (
                bytes,
                value,
                shifting,
            )),
            value as nat > max_for_bytes(bytes as nat) ==> r is None,
    {
        let max_value = max_value_for_bytes(bytes);
        if value > max_value {
            None
        } else {
            Some(DmxValue { value, bytes, shifting })
        }
    }

    /// Construct a DmxValue from an 8-bit integer.
    pub fn new_u8(value: u8, shifting: bool) -> (r: DmxValue)
        ensures
            r@ == (1u8, value as u64, shifting),
    {
        proof {
            lemma_p256_small();
        }
        DmxValue { value: value as u64, bytes: 1, shifting }
    }

    /// Construct a DmxValue from a 16-bit integer.
    pub fn new_u16(value: u16, shifting: bool) -> (r: DmxValue)
        ensures
            r@ == (2u8, value as u64, shifting),
    {
        proof {
            lemma_p256_small();
        }
        DmxValue { value: value as u64, bytes: 2, shifting }
    }

    /// Construct a DmxValue from a 32-bit integer.
    pub fn new_u32(value: u32, shifting: bool) -> (r: DmxValue)
        ensures
            r@ == (4u8, value as u64, shifting),
    {
        proof {
            lemma_p256_small();
        }
        DmxValue { value: value as u64, bytes: 4, shifting }
    }

    /// Construct a DmxValue from a 64-bit integer.
    pub fn new_u64(value: u64, shifting: bool) -> (r: DmxValue)
        ensures
            r@ == (8u8, value, shifting),
    {
        DmxValue { value, bytes: 8, shifting }
    }

    /// The value `0/1`: zero in one byte, mirroring.
    pub fn default() -> (r: DmxValue)
        ensures
            r@ == (1u8, 0u64, false),
    {
        DmxValue { value: 0, bytes: 1, shifting: false }
    }

    /// Convert a DmxValue to a number with the provided number of bytes: any number of bytes up
    /// to eight, the size of the result, and any number up to the value's own byte count.
    pub fn to(self, bytes: u8) -> (r: u64)
        requires
            bytes <= 8 || bytes <= self@.0,
        ensures
            r as nat == convert_bytes(self@.1 as nat, self@.0 as nat, self@.2, bytes as nat),
            (r as nat) < p256(bytes as nat),
    {
        proof {
            use_type_invariant(self);
            lemma_p256_small();
        }
        let b = self.bytes;
        let v = self.value;
        let ghost vn = v as nat;
        let ghost bn = b as nat;
        let ghost nn = bytes as nat;
        if bytes == 0 {
            return 0;
        }
        if bytes <= b {
            let d = b - bytes;
            if d >= 8 {
                proof {
                    lemma_p256_increases(8, d as nat);
                    assert(vn < p256(d as nat));
                    assert(vn / p256(d as nat) == 0) by (nonlinear_arith)
                        requires
                            vn < p256(d as nat),
                    ;
                    lemma_p256_adds(nn, 0);
                }
                return 0;
            } else {
                let p = pow256(d);
                proof {
                    lemma_p256_adds(0, 0);
                    lemma_p256_adds(nn, d as nat);
                    if bn >= 8 {
                        lemma_p256_increases(8, bn);
                    }
                    assert(vn < p256(bn));
                    assert(vn / (p as nat) < p256(nn)) by (nonlinear_arith)
                        requires
                            vn < p256(nn) * p,
                            p >= 1,
                    ;
                }
                return v / p;
            }
        }
        let d = bytes - b;
        let ghost pb = p256(bn);
        proof {
            lemma_p256_adds(bn, d as nat);
            assert(b < 8);
            assert(vn <= pb - 1);
        }
        let pd = pow256(d);
        if self.shifting {
            proof {
                assert(vn * (pd as nat) <= (pb - 1) * pd) by (nonlinear_arith)
                    requires
                        vn <= pb - 1,
                ;
                assert((pb - 1) * pd <= pb * pd) by (nonlinear_arith)
                    requires
                        pb >= 1,
                ;
                assert((pb - 1) * pd < pb * pd) by (nonlinear_arith)
                    requires
                        pb >= 1,
                        pd >= 1,
                ;
                lemma_p256_increases(nn, 8);
            }
            return v * pd;
        }
        let pbe = pow256(b);
        let mut acc: u64 = 0;
        let mut rem: u8 = bytes;
        proof {
            lemma_p256_adds(0, 0);
            assert(mirror_fill(vn, bn, nn) == 0 * p256(nn) + mirror_fill(vn, bn, nn));
        }
        while rem > b
            invariant
                1 <= b < bytes <= 8,
                b < 8,
                1 <= rem <= bytes,
                pbe as nat == p256(bn),
                bn == b as nat,
                nn == bytes as nat,
                vn == v as nat,
                vn <= p256(bn) - 1,
                acc as nat <= p256((nn - rem) as nat) - 1,
                mirror_fill(vn, bn, nn) == acc as nat * p256(rem as nat) + mirror_fill(vn, bn, rem as nat),
            decreases rem,
        {
            let ghost r0 = rem as nat;
            let ghost e = (nn - r0) as nat;
            proof {
                lemma_p256_adds(e, bn);
                lemma_p256_adds(bn, (r0 - bn) as nat);
                lemma_p256_adds((r0 - bn) as nat, 0);
                lemma_p256_increases((e + bn) as nat, 8);
                lemma_p256_small();
                let a = acc as nat;
                let pe = p256(e);
                let pb = p256(bn);
                assert(a * pb + vn <= pe * pb - 1) by (nonlinear_arith)
                    requires
                        a <= pe - 1,
                        vn <= pb - 1,
                        pe >= 1,
                        pb >= 1,
                ;
                let pr = p256((r0 - bn) as nat);
                assert(mirror_fill(vn, bn, r0) == vn * pr + mirror_fill(vn, bn, (r0 - bn) as nat));
                assert(a * (pb * pr) + vn * pr == (a * pb + vn) * pr) by (nonlinear_arith);
            }
            acc = acc * pbe + v;
            rem = rem - b;
        }
        let q = pow256(b - rem);
        let tail = v / q;
        proof {
            let r0 = rem as nat;
            let a = acc as nat;
            lemma_p256_adds(r0, (bn - r0) as nat);
            lemma_p256_adds((nn - r0) as nat, r0);
            lemma_p256_increases(nn, 8);
            let pr = p256(r0);
            let pq = p256((bn - r0) as nat);
            assert(pr >= 1 && pq >= 1);
            assert(tail as nat <= pr - 1) by (nonlinear_arith)
                requires
                    vn <= pr * pq - 1,
                    tail as nat == vn / pq,
                    pq >= 1,
            ;
            let pe = p256((nn - r0) as nat);
            assert(a * pr + tail <= pe * pr - 1) by (nonlinear_arith)
                requires
                    a <= pe - 1,
                    tail <= pr - 1,
                    pr >= 1,
            ;
        }
        acc * pow256(rem) + tail
    }

    /// Convert a DmxValue to an 8-bit integer.
    pub fn to_u8(self) -> (r: u8)
        ensures
            r as nat == convert_bytes(self@.1 as nat, self@.0 as nat, self@.2, 1),
    {
        let x = self.to(1);
        proof {
            lemma_p256_small();
        }
        x as u8
    }

    /// Convert a DmxValue to a 16-bit integer.
    pub fn to_u16(self) -> (r: u16)
        ensures
            r as nat == convert_bytes(self@.1 as nat, self@.0 as nat, self@.2, 2),
    {
        let x = self.to(2);
        proof {
            lemma_p256_small();
        }
        x as u16
    }

    /// Convert a DmxValue to a 32-bit integer.
    pub fn to_u32(self) -> (r: u32)
        ensures
            r as nat == convert_bytes(self@.1 as nat, self@.0 as nat, self@.2, 4),
    {
        let x = self.to(4);
        proof {
            lemma_p256_small();
        }
        x as u32
    }

    /// Convert a DmxValue to a 64-bit integer.
    pub fn to_u64(self) -> (r: u64)
        ensures
            r as nat == convert_bytes(self@.1 as nat, self@.0 as nat, self@.2, 8),
    {
        self.to(8)
    }
}

/// What [DmxValue::parse] accepts: `value/n` or `value/ns` (split at the first `/`), with an
/// unsigned 64-bit value and an unsigned 8-bit byte count. A byte count of 0 counts as 1, and a
/// value that does not fit in the byte count becomes the largest value that does.
pub open spec fn dmx_value_from_text(s: Seq<char>) -> Option<(u8, u64, bool)> {
    match first_index(s, '/') {
        Some(i) => {
            let value_str = s.subrange(0, i);
            let rest = s.subrange(i + 1, s.len() as int);
            let shifting = rest.len() > 0 && rest.last() == 's';
            let bytes_str = if shifting { rest.drop_last() } else { rest };
            match (parse_unsigned(value_str, u64::MAX as nat), parse_unsigned(bytes_str, u8::MAX as nat)) {
                (Some(v), Some(b)) => {
                    let bytes: nat = if b == 0 { 1 } else { b };
                    let value: nat = if v <= max_for_bytes(bytes) { v } else { max_for_bytes(bytes) };
                    Some((bytes as u8, value as u64, shifting))
                },
                _ => None,
            }
        },
        None => None,
    }
}

/// The text form of a DMX value: `value/n`, followed by `s` when shifting.
pub open spec fn dmx_value_text(d: (u8, u64, bool)) -> Seq<char> {
    decimal(d.1 as nat) + seq!['/'] + decimal(d.0 as nat) + if d.2 { seq!['s'] } else { Seq::<char>::empty() }
}

impl DmxValue {
    /// Reads a DMX value from its text form.
    pub fn parse(text: &str) -> (r: Option<DmxValue>)
        ensures
            r matches Some(d) ==> dmx_value_from_text(text@) == Some(d@),
            r is None ==> dmx_value_from_text(text@) is None,
    {
        let v = chars_of(text);
        assert(v@.subrange(0, v@.len() as int) =~= v@);
        let i = match find_char(&v, 0, v.len(), '/') {
            Some(i) => i,
            None => return None,
        };
        let ghost rest = v@.subrange(i + 1, v@.len() as int);
        let shifting = i + 1 < v.len() && v[v.len() - 1] == 's';
        let bytes_end = if shifting { v.len() - 1 } else { v.len() };
        proof {
            if shifting {
                assert(rest.drop_last() =~= v@.subrange(i + 1, bytes_end as int));
            } else {
                assert(rest =~= v@.subrange(i + 1, bytes_end as int));
            }
        }
        let value = parse_unsigned_range(&v, 0, i, u64::MAX);
        let bytes = parse_unsigned_range(&v, i + 1, bytes_end, u8::MAX as u64);
        match (value, bytes) {
            (Some(value), Some(bytes)) => {
                let bytes: u8 = if bytes == 0 { 1 } else { bytes as u8 };
                let max_value = max_value_for_bytes(bytes);
                let value = if value <= max_value { value } else { max_value };
                Some(DmxValue { value, bytes, shifting })
            },
            _ => None,
        }
    }

    /// The text form `value/n`, followed by `s` when shifting.
    pub fn to_text(self) -> (r: String)
        ensures
            r@ == dmx_value_text(self@),
    {
        let mut out: Vec<char> = Vec::new();
        push_decimal(&mut out, self.value);
        out.push('/');
        push_decimal(&mut out, self.bytes as u64);
        if self.shifting {
            out.push('s');
        }
        assert(out@ =~= dmx_value_text(self@));
        string_from_chars(&out)
    }
}

/// A DMX value printed as text and read back is the same value.
pub proof fn lemma_dmx_value_text_roundtrip(d: (u8, u64, bool))
    requires
        dmx_value_fits(d.0 as nat, d.1 as nat),
    ensures
        dmx_value_from_text(dmx_value_text(d)) == Some(d),
{
    let dv = decimal(d.1 as nat);
    let db = decimal(d.0 as nat);
    let s = dmx_value_text(d);
    lemma_decimal_plain(d.1 as nat);
    lemma_decimal_plain(d.0 as nat);
    lemma_first_index(s, '/');
    assert(s[dv.len() as int] == '/');
    assert forall|j: int| 0 <= j < dv.len() implies s[j] != '/' by {
        assert(s[j] == dv[j]);
    }
    assert(first_index(s, '/') == Some(dv.len() as int));
    assert(s.subrange(0, dv.len() as int) =~= dv);
    let rest = s.subrange(dv.len() as int + 1, s.len() as int);
    if d.2 {
        assert(rest =~= db.push('s'));
        assert(rest.drop_last() =~= db);
    } else {
        assert(rest =~= db);
        assert(rest.last() == db[db.len() - 1]);
    }
    lemma_parse_unsigned_decimal(d.1 as nat, u64::MAX as nat);
    lemma_parse_unsigned_decimal(d.0 as nat, u8::MAX as nat);
}

/// The bit pattern `b` of an IEEE 754 double is a NaN.
pub open spec fn float_bits_is_nan(b: u64) -> bool {
    (b & 0x7ff0000000000000u64) == 0x7ff0000000000000u64 && (b & 0x000fffffffffffffu64) != 0
}

/// The doubles with bit patterns `a` and `b` compare equal: neither is a NaN, and they have the
/// same bits or are both zeros.
pub open spec fn float_bits_eq(a: u64, b: u64) -> bool {
    !float_bits_is_nan(a) && !float_bits_is_nan(b) && (a == b || ((a & 0x7fffffffffffffffu64) == 0
        && (b & 0x7fffffffffffffffu64) == 0))
}

/// Compares the doubles with bit patterns `a` and `b` as `f64`'s `==` does.
pub fn float_bits_equal(a: u64, b: u64) -> (r: bool)
    ensures
        r == float_bits_eq(a, b),
{
    let a_nan = (a & 0x7ff0000000000000u64) == 0x7ff0000000000000u64 && (a & 0x000fffffffffffffu64) != 0;
    let b_nan = (b & 0x7ff0000000000000u64) == 0x7ff0000000000000u64 && (b & 0x000fffffffffffffu64) != 0;
    !a_nan && !b_nan && (a == b || ((a & 0x7fffffffffffffffu64) == 0 && (b & 0x7fffffffffffffffu64) == 0))
}

/// CIE color representation xyY 1931.
///
/// Each component is held as the bit pattern of an IEEE 754 double (`f64::to_bits`).
#[derive(Debug, Clone, Copy)]
pub struct ColorCie {
    /// CIE x value.
    pub x: u64,
    /// CIE y value.
    pub y: u64,
    /// CIE Y value.
    pub z: u64,
}

impl ColorCie {
    /// Constructs a pure white color: x=0.3127, y=0.3290, Y=100.
    pub fn white() -> (r: ColorCie)
        ensures
            r == (ColorCie { x: 0x3fd40346dc5d6388, y: 0x3fd50e5604189375, z: 0x4059000000000000 }),
    {
        ColorCie { x: 0x3fd40346dc5d6388, y: 0x3fd50e5604189375, z: 0x4059000000000000 }
    }
}

impl PartialEq for ColorCie {
    fn eq(&self, other: &Self) -> (r: bool) {
        float_bits_equal(self.x, other.x) && float_bits_equal(self.y, other.y) && float_bits_equal(
            self.z,
            other.z,
        )
    }
}

impl PartialEqSpecImpl for ColorCie {
    open spec fn obeys_eq_spec() -> bool {
        true
    }

    /// Each component compares equal as a double.
    open spec fn eq_spec(&self, other: &Self) -> bool {
        float_bits_eq(self.x, other.x) && float_bits_eq(self.y, other.y) && float_bits_eq(
            self.z,
            other.z,
        )
    }
}

/// The two rows hold, place by place, doubles that compare equal.
pub open spec fn float_row_eq(a: Seq<u64>, b: Seq<u64>) -> bool {
    a.len() == b.len() && forall|j: int| 0 <= j < a.len() ==> float_bits_eq(#[trigger] a[j], b[j])
}

/// Compares two rows of doubles place by place, as `f64`'s `==` does.
fn row_equal<const N: usize>(a: &[u64; N], b: &[u64; N]) -> (r: bool)
    ensures
        r == float_row_eq(a@, b@),
{
    let mut j: usize = 0;
    while j < N
        invariant
            j <= N,
            a@.len() == N,
            b@.len() == N,
            forall|k: int| 0 <= k < j ==> float_bits_eq(#[trigger] a@[k], b@[k]),
        decreases N - j,
    {
        if !float_bits_equal(a[j], b[j]) {
            return false;
        }
        j = j + 1;
    }
    true
}

/// Vector with 3 components, each held as the bit pattern of an IEEE 754 double.
#[derive(Debug, Clone, Copy)]
pub struct Vector3(pub [u64; 3]);

impl Vector3 {
    /// Constructs a zero vector.
    pub fn zero() -> (r: Vector3)
        ensures
            r.0@ == seq![0u64, 0u64, 0u64],
    {
        let r = Vector3([0, 0, 0]);
        assert(r.0@ =~= seq![0u64, 0u64, 0u64]);
        r
    }
}

impl PartialEq for Vector3 {
    fn eq(&self, other: &Self) -> (r: bool) {
        row_equal(&self.0, &other.0)
    }
}

impl PartialEqSpecImpl for Vector3 {
    open spec fn obeys_eq_spec() -> bool {
        true
    }

    /// Each component compares equal as a double.
    open spec fn eq_spec(&self, other: &Self) -> bool {
        float_row_eq(self.0@, other.0@)
    }
}

/// A transform matrix of 4 x 4 numbers, each held as the bit pattern of an IEEE 754 double.
#[derive(Debug, Clone, Copy)]
pub struct Matrix(pub [[u64; 4]; 4]);

/// The bit pattern of `1.0`.
pub const ONE_BITS: u64 = 0x3ff0000000000000;

impl Matrix {
    /// Constructs a matrix representing an identity transform.
    pub fn identity() -> (r: Matrix)
        ensures
            forall|i: int, j: int|
                0 <= i < 4 && 0 <= j < 4 ==> #[trigger] r.0@[i]@[j] == if i == j {
                    ONE_BITS
                } else {
                    0u64
                },
    {
        let r = Matrix([[ONE_BITS, 0, 0, 0], [0, ONE_BITS, 0, 0], [0, 0, ONE_BITS, 0], [0, 0, 0, ONE_BITS]]);
        assert(r.0@[0]@ =~= seq![ONE_BITS, 0, 0, 0]);
        assert(r.0@[1]@ =~= seq![0, ONE_BITS, 0, 0]);
        assert(r.0@[2]@ =~= seq![0, 0, ONE_BITS, 0]);
        assert(r.0@[3]@ =~= seq![0, 0, 0, ONE_BITS]);
        r
    }
}

impl PartialEq for Matrix {
    fn eq(&self, other: &Self) -> (r: bool) {
        let mut i: usize = 0;
        while i < 4
            invariant
                i <= 4,
                forall|k: int| 0 <= k < i ==> float_row_eq(#[trigger] self.0@[k]@, other.0@[k]@),
            decreases 4 - i,
        {
            if !row_equal(&self.0[i], &other.0[i]) {
                return false;
            }
            i = i + 1;
        }
        true
    }
}

impl PartialEqSpecImpl for Matrix {
    open spec fn obeys_eq_spec() -> bool {
        true
    }

    /// Each entry compares equal as a double.
    open spec fn eq_spec(&self, other: &Self) -> bool {
        forall|k: int| 0 <= k < 4 ==> float_row_eq(#[trigger] self.0@[k]@, other.0@[k]@)
    }
}

/// A rotation matrix of 3 x 3 numbers, each held as the bit pattern of an IEEE 754 double.
#[derive(Debug, Clone, Copy)]
pub struct Rotation(pub [[u64; 3]; 3]);

impl Rotation {
    /// Constructs a matrix representing an identity rotation.
    pub fn identity() -> (r: Rotation)
        ensures
            forall|i: int, j: int|
                0 <= i < 3 && 0 <= j < 3 ==> #[trigger] r.0@[i]@[j] == if i == j {
                    ONE_BITS
                } else {
                    0u64
                },
    {
        let r = Rotation([[ONE_BITS, 0, 0], [0, ONE_BITS, 0], [0, 0, ONE_BITS]]);
        assert(r.0@[0]@ =~= seq![ONE_BITS, 0, 0]);
        assert(r.0@[1]@ =~= seq![0, ONE_BITS, 0]);
        assert(r.0@[2]@ =~= seq![0, 0, ONE_BITS]);
        r
    }
}

impl PartialEq for Rotation {
    fn eq(&self, other: &Self) -> (r: bool) {
        let mut i: usize = 0;
        while i < 3
            invariant
                i <= 3,
                forall|k: int| 0 <= k < i ==> float_row_eq(#[trigger] self.0@[k]@, other.0@[k]@),
            decreases 3 - i,
        {
            if !row_equal(&self.0[i], &other.0[i]) {
                return false;
            }
            i = i + 1;
        }
        true
    }
}

impl PartialEqSpecImpl for Rotation {
    open spec fn obeys_eq_spec() -> bool {
        true
    }

    /// Each entry compares equal as a double.
    open spec fn eq_spec(&self, other: &Self) -> bool {
        forall|k: int| 0 <= k < 3 ==> float_row_eq(#[trigger] self.0@[k]@, other.0@[k]@)
    }
}

/// A version value consisting of a major and minor number.
///
/// Supported versions: `1.0`, `1.1`, `1.2`.
#[derive(Debug, Clone, Copy, PartialEq, Eq, Hash)]
pub struct Version {
    /// Major version number.
    pub major: u8,
    /// Minor version number.
    pub minor: u8,
}

impl Version {
    /// Returns if this version is supported by the parser.
    pub fn is_supported(self) -> (r: bool)
        ensures
            r == (self.major == 1 && self.minor <= 2),
    {
        self.major == 1 && self.minor <= 2
    }

    /// Reads a version from its text form `major.minor` (split at the first `.`).
    pub fn parse(text: &str) -> (r: Option<Version>)
        ensures
            r matches Some(v) ==> version_from_text(text@) == Some((v.major, v.minor)),
            r is None ==> version_from_text(text@) is None,
    {
        let v = chars_of(text);
        assert(v@.subrange(0, v@.len() as int) =~= v@);
        let i = match find_char(&v, 0, v.len(), '.') {
            Some(i) => i,
            None => return None,
        };
        let major = parse_unsigned_range(&v, 0, i, u8::MAX as u64);
        let minor = parse_unsigned_range(&v, i + 1, v.len(), u8::MAX as u64);
        match (major, minor) {
            (Some(major), Some(minor)) => Some(Version { major: major as u8, minor: minor as u8 }),
            _ => None,
        }
    }

    /// The text form `major.minor`.
    pub fn to_text(self) -> (r: String)
        ensures
            r@ == decimal(self.major as nat) + seq!['.'] + decimal(self.minor as nat),
    {
        let mut out: Vec<char> = Vec::new();
        push_decimal(&mut out, self.major as u64);
        out.push('.');
        push_decimal(&mut out, self.minor as u64);
        string_from_chars(&out)
    }
}

/// What [Version::parse] accepts: two unsigned 8-bit numbers separated by the first `.`.
pub open spec fn version_from_text(s: Seq<char>) -> Option<(u8, u8)> {
    match first_index(s, '.') {
        Some(i) => match (
            parse_unsigned(s.subrange(0, i), u8::MAX as nat),
            parse_unsigned(s.subrange(i + 1, s.len() as int), u8::MAX as nat),
        ) {
            (Some(a), Some(b)) => Some((a as u8, b as u8)),
            _ => None,
        },
        None => None,
    }
}

/// A version printed as text and read back is the same version.
pub proof fn lemma_version_text_roundtrip(major: u8, minor: u8)
    ensures
        version_from_text(decimal(major as nat) + seq!['.'] + decimal(minor as nat)) == Some(
            (major, minor),
        ),
{
    let da = decimal(major as nat);
    let db = decimal(minor as nat);
    let s = da + seq!['.'] + db;
    lemma_decimal_plain(major as nat);
    lemma_decimal_plain(minor as nat);
    lemma_first_index(s, '.');
    assert(s[da.len() as int] == '.');
    assert forall|j: int| 0 <= j < da.len() implies s[j] != '.' by {
        assert(s[j] == da[j]);
    }
    assert(first_index(s, '.') == Some(da.len() as int));
    assert(s.subrange(0, da.len() as int) =~= da);
    assert(s.subrange(da.len() as int + 1, s.len() as int) =~= db);
    lemma_parse_unsigned_decimal(major as nat, u8::MAX as nat);
    lemma_parse_unsigned_decimal(minor as nat, u8::MAX as nat);
}

} // verus!
