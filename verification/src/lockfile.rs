//! Checksums of a `Cargo.lock`, in the form that Nix takes.

use crate::lists;
use crate::text;
use crate::toml_tree;
use crate::toml_tree::{Toml, Tree};
use vstd::prelude::*;

verus! {

// ---------------------------------------------------------------------------
// Hexadecimal and base64
// ---------------------------------------------------------------------------

/// The value of a hexadecimal digit.
pub open spec fn hex_value(c: char) -> Option<int> {
    if '0' <= c <= '9' {
        Some(c as int - '0' as int)
    } else if 'a' <= c <= 'f' {
        Some(c as int - 'a' as int + 10)
    } else if 'A' <= c <= 'F' {
        Some(c as int - 'A' as int + 10)
    } else {
        None
    }
}

/// The bytes that pairs of hexadecimal digits stand for.
pub open spec fn hex_bytes(s: Seq<char>) -> Option<Seq<u8>>
    decreases s.len(),
{
    if s.len() == 0 {
        Some(Seq::empty())
    } else if s.len() == 1 {
        None
    } else {
        match (hex_bytes(s.take(s.len() - 2)), hex_value(s[s.len() - 2]), hex_value(s[s.len() - 1])) {
            (Some(v), Some(h), Some(l)) => Some(v.push((16 * h + l) as u8)),
            _ => None,
        }
    }
}

fn hex_digit(c: char) -> (r: Option<u8>)
    ensures
        match r {
            Some(v) => hex_value(c) == Some(v as int) && v < 16,
            None => hex_value(c) is None,
        },
{
    let n: u32 = c as u32;
    if '0' <= c && c <= '9' {
        Some((n - 48) as u8)
    } else if 'a' <= c && c <= 'f' {
        Some((n - 87) as u8)
    } else if 'A' <= c && c <= 'F' {
        Some((n - 55) as u8)
    } else {
        None
    }
}

/// A text that goes wrong in its beginning goes wrong.
proof fn lemma_hex_fails(s: Seq<char>, n: int)
    requires
        0 <= n <= s.len(),
        n % 2 == 0,
        s.len() % 2 == 0,
        hex_bytes(s.take(n)) is None,
    ensures
        hex_bytes(s) is None,
    decreases s.len() - n,
{
    if n == s.len() {
        assert(s.take(n) =~= s);
    } else {
        let t = s.take(n + 2);
        assert(t.take(t.len() - 2) =~= s.take(n));
        assert(hex_bytes(t) is None);
        lemma_hex_fails(s, n + 2);
    }
}

proof fn lemma_hex_odd(s: Seq<char>)
    requires
        s.len() % 2 == 1,
    ensures
        hex_bytes(s) is None,
    decreases s.len(),
{
    if s.len() > 1 {
        lemma_hex_odd(s.take(s.len() - 2));
    }
}

/// Reads pairs of hexadecimal digits.
pub fn decode_hex(s: &str) -> (r: Option<Vec<u8>>)
    ensures
        match r {
            Some(v) => hex_bytes(s@) == Some(v@),
            None => hex_bytes(s@) is None,
        },
{
    let c = text::chars_of(s);
    let n: usize = c.len();
    if n % 2 == 1 {
        proof {
            lemma_hex_odd(s@);
        }
        return None;
    }
    let mut out: Vec<u8> = Vec::new();
    let mut i: usize = 0;
    assert(s@.take(0) =~= Seq::empty());
    while i < n
        invariant
            c@ == s@,
            n == c@.len(),
            n % 2 == 0,
            i % 2 == 0,
            i <= n,
            hex_bytes(s@.take(i as int)) == Some(out@),
        decreases n - i,
    {
        let ghost t = s@.take(i + 2);
        assert(t.take(t.len() - 2) =~= s@.take(i as int));
        match (hex_digit(c[i]), hex_digit(c[i + 1])) {
            (Some(h), Some(l)) => {
                out.push(16 * h + l);
            },
            _ => {
                proof {
                    assert(hex_bytes(t) is None);
                    lemma_hex_fails(s@, i + 2);
                }
                return None;
            },
        }
        i += 2;
    }
    assert(s@.take(n as int) =~= s@);
    Some(out)
}

/// The digit for a value below 64 in the standard base64 alphabet.
pub open spec fn base64_digit(n: int) -> char {
    if n < 26 {
        ('A' as int + n) as char
    } else if n < 52 {
        ('a' as int + n - 26) as char
    } else if n < 62 {
        ('0' as int + n - 52) as char
    } else if n == 62 {
        '+'
    } else {
        '/'
    }
}

/// Standard base64 with padding: four digits for three bytes, six bits each.
pub open spec fn base64_of(b: Seq<u8>) -> Seq<char>
    decreases b.len(),
{
    if b.len() == 0 {
        Seq::empty()
    } else if b.len() == 1 {
        seq![base64_digit((b[0] / 4) as int), base64_digit((b[0] % 4) * 16), '=', '=']
    } else if b.len() == 2 {
        seq![
            base64_digit((b[0] / 4) as int),
            base64_digit((b[0] % 4) * 16 + b[1] / 16),
            base64_digit((b[1] % 16) * 4),
            '=',
        ]
    } else {
        seq![
            base64_digit((b[0] / 4) as int),
            base64_digit((b[0] % 4) * 16 + b[1] / 16),
            base64_digit((b[1] % 16) * 4 + b[2] / 64),
            base64_digit((b[2] % 64) as int),
        ] + base64_of(b.skip(3))
    }
}

/// `base64::engine::general_purpose::STANDARD.encode`: the encoding of RFC 4648, section 4.
#[verifier::external_body]
pub(crate) fn base64_encode(b: &Vec<u8>) -> (r: String)
    ensures
        r@ == base64_of(b@),
{
    base64::Engine::encode(&base64::engine::general_purpose::STANDARD, b)
}

/// The checksum `hex` as an SRI hash; `None` for what is not hexadecimal.
pub open spec fn sri_of(hex: Seq<char>) -> Option<Seq<char>> {
    match hex_bytes(hex) {
        Some(b) => Some("sha256-"@ + base64_of(b)),
        None => None,
    }
}

/// Turns a hexadecimal sha256 into an SRI hash.
pub fn hex_to_sri(hex: &str) -> (r: Option<String>)
    ensures
        r.deep_view() == sri_of(hex@),
{
    match decode_hex(hex) {
        Some(b) => Some(text::cat2("sha256-", &base64_encode(&b))),
        None => None,
    }
}

// ---------------------------------------------------------------------------
// Checksums by package
// ---------------------------------------------------------------------------

/// The hash of one locked package.
#[derive(Debug, Clone)]
pub struct LockHash {
    pub name: String,
    pub version: String,
    pub sri: String,
}

/// The view of a [`LockHash`].
pub struct HashView {
    pub name: Seq<char>,
    pub version: Seq<char>,
    pub sri: Seq<char>,
}

impl DeepView for LockHash {
    type V = HashView;

    open spec fn deep_view(&self) -> HashView {
        HashView { name: self.name@, version: self.version@, sri: self.sri@ }
    }
}

/// The hashes of the packages in a lock file that have a checksum, in its order.
#[derive(Debug, Clone)]
pub struct LockfileHashes {
    pub hashes: Vec<LockHash>,
}

impl DeepView for LockfileHashes {
    type V = Seq<HashView>;

    open spec fn deep_view(&self) -> Seq<HashView> {
        self.hashes.deep_view()
    }
}

/// The hash that one `[[package]]` entry gives.
pub open spec fn hash_in(p: Toml) -> Option<HashView> {
    match (
        toml_tree::text_in(toml_tree::field(p, "name"@)),
        toml_tree::text_in(toml_tree::field(p, "version"@)),
        toml_tree::text_in(toml_tree::field(p, "checksum"@)),
    ) {
        (Some(name), Some(version), Some(hex)) => match sri_of(hex) {
            Some(sri) => Some(HashView { name, version, sri }),
            None => None,
        },
        _ => None,
    }
}

pub open spec fn hash_at() -> spec_fn(Toml) -> Option<HashView> {
    |p: Toml| hash_in(p)
}

/// The hashes of a lock file's text; none if it is not TOML.
pub open spec fn lock_hashes(text: Seq<char>) -> Seq<HashView> {
    match toml_tree::toml_parsed(text) {
        Ok(t) => toml_tree::items_in(toml_tree::field(t, "package"@)).filter_map(hash_at()),
        Err(_) => Seq::empty(),
    }
}

/// The hash of a package: that of the last entry with its name and version.
pub open spec fn hash_for(s: Seq<HashView>, name: Seq<char>, version: Seq<char>) -> Option<Seq<char>>
    decreases s.len(),
{
    if s.len() == 0 {
        None
    } else if s.last().name == name && s.last().version == version {
        Some(s.last().sri)
    } else {
        hash_for(s.drop_last(), name, version)
    }
}

fn read_hash(p: &Tree) -> (r: Option<LockHash>)
    ensures
        r.deep_view() == hash_in(p.deep_view()),
{
    match (
        toml_tree::str_in(p.get("name")),
        toml_tree::str_in(p.get("version")),
        toml_tree::str_in(p.get("checksum")),
    ) {
        (Some(name), Some(version), Some(hex)) => match hex_to_sri(hex) {
            Some(sri) => Some(LockHash { name: name.to_owned(), version: version.to_owned(), sri }),
            None => None,
        },
        _ => None,
    }
}

/// Reads the hashes out of the text of a `Cargo.lock`.
pub fn parse_lockfile(cargo_lock: &str) -> (r: LockfileHashes)
    ensures
        r.deep_view() == lock_hashes(cargo_lock@),
{
    let mut hashes: Vec<LockHash> = Vec::new();
    if let Ok(t) = toml_tree::parse(cargo_lock) {
        if let Some(v) = t.get("package") {
            if let Some(a) = v.as_array() {
                let ghost s = a.deep_view();
                for i in 0..a.len()
                    invariant
                        s == a.deep_view(),
                        hashes.deep_view() == s.take(i as int).filter_map(hash_at()),
                {
                    let ghost o = hashes.deep_view();
                    assert(s.take(i + 1).drop_last() =~= s.take(i as int));
                    assert(s.take(i + 1).last() == a@[i as int].deep_view());
                    if let Some(h) = read_hash(&a[i]) {
                        let ghost hv = h.deep_view();
                        hashes.push(h);
                        assert(hashes.deep_view() =~= o + seq![hv]);
                    }
                }
                assert(s.take(s.len() as int) =~= s);
                return LockfileHashes { hashes };
            }
        }
    }
    assert(hashes.deep_view() =~= Seq::empty());
    LockfileHashes { hashes }
}

impl LockfileHashes {
    pub fn get(&self, name: &str, version: &str) -> (r: Option<String>)
        ensures
            r.deep_view() == hash_for(self.deep_view(), name@, version@),
    {
        let ghost s = self.deep_view();
        let mut i: usize = self.hashes.len();
        assert(s.take(i as int) =~= s);
        while i > 0
            invariant
                s == self.hashes.deep_view(),
                i <= s.len(),
                hash_for(s, name@, version@) == hash_for(s.take(i as int), name@, version@),
            decreases i,
        {
            i -= 1;
            assert(s.take(i + 1).drop_last() =~= s.take(i as int));
            assert(s.take(i + 1).last() == self.hashes@[i as int].deep_view());
            if text::same(&self.hashes[i].name, name) && text::same(&self.hashes[i].version, version) {
                return Some(self.hashes[i].sri.clone());
            }
        }
        None
    }
}

// ---------------------------------------------------------------------------
// What hashes mean
// ---------------------------------------------------------------------------

/// The digits of hexadecimal are `0` to `9` and `a` to `f`, in small letters or capitals, in the order of
/// their values.
pub proof fn lemma_hex_digits(c: char, n: int)
    ensures
        0 <= n < 16 ==> hex_value("0123456789abcdef"@[n]) == Some(n),
        0 <= n < 16 ==> hex_value("0123456789ABCDEF"@[n]) == Some(n),
        hex_value(c) matches Some(v) ==> 0 <= v < 16 && (c == "0123456789abcdef"@[v] || c == "0123456789ABCDEF"@[v]),
{
    reveal_strlit("0123456789abcdef");
    reveal_strlit("0123456789ABCDEF");
}

/// Whether a byte has the values of two digits, the higher first.
pub open spec fn is_byte(high: Option<int>, low: Option<int>, b: u8) -> bool {
    high is Some && low is Some && b == 16 * high->0 + low->0
}

/// Hexadecimal is read digit by digit, two for a byte, the higher first; it is read exactly if there are pairs
/// of digits and nothing else.
pub proof fn lemma_hex_bytes(s: Seq<char>)
    ensures
        match hex_bytes(s) {
            Some(b) => s.len() == 2 * b.len() && forall|i: int|
                0 <= i < b.len() ==> is_byte(hex_value(s[2 * i]), hex_value(s[2 * i + 1]), #[trigger] b[i]),
            None => s.len() % 2 == 1 || exists|i: int| 0 <= i < s.len() && hex_value(#[trigger] s[i]) is None,
        },
    decreases s.len(),
{
    if s.len() >= 2 {
        let n = s.len() - 2;
        let t = s.take(n);
        lemma_hex_bytes(t);
        lemma_hex_digits(s[n], 0);
        lemma_hex_digits(s[n + 1], 0);
        match hex_bytes(t) {
            Some(v) => {
                match (hex_value(s[n]), hex_value(s[n + 1])) {
                    (Some(h), Some(l)) => {
                        let b = v.push((16 * h + l) as u8);
                        assert(hex_bytes(s) == Some(b));
                        assert(b.last() == 16 * h + l);
                        assert forall|i: int| 0 <= i < b.len() implies is_byte(
                            hex_value(s[2 * i]),
                            hex_value(s[2 * i + 1]),
                            #[trigger] b[i],
                        ) by {
                            if i < v.len() {
                                assert(b[i] == v[i]);
                                assert(t[2 * i] == s[2 * i] && t[2 * i + 1] == s[2 * i + 1]);
                            } else {
                                assert(2 * i == n);
                            }
                        }
                    },
                    (None, _) => {
                        assert(hex_value(s[n]) is None);
                        assert(hex_bytes(s) is None);
                    },
                    (_, None) => {
                        assert(hex_value(s[n + 1]) is None);
                    },
                }
            },
            None => {
                if t.len() % 2 != 1 {
                    let i = choose|i: int| 0 <= i < t.len() && hex_value(#[trigger] t[i]) is None;
                    assert(hex_value(s[i]) is None);
                }
            },
        }
    }
}

/// The digits of base64 are those of its standard alphabet, in that order.
pub proof fn lemma_base64_alphabet(n: int)
    requires
        0 <= n < 64,
    ensures
        base64_digit(n) == "ABCDEFGHIJKLMNOPQRSTUVWXYZabcdefghijklmnopqrstuvwxyz0123456789+/"@[n],
{
    reveal_strlit("ABCDEFGHIJKLMNOPQRSTUVWXYZabcdefghijklmnopqrstuvwxyz0123456789+/");
}

/// Base64 has four digits for every three bytes, which hold their bits in order, six in each; what is left at
/// the end is filled up with zeros, and with `=` to four.
pub proof fn lemma_base64(b: Seq<u8>, k: int)
    requires
        0 <= k,
    ensures
        base64_of(b).len() == 4 * ((b.len() + 2) / 3),
        3 * k + 2 < b.len() ==> {
            &&& base64_of(b)[4 * k] == base64_digit((b[3 * k] / 4) as int)
            &&& base64_of(b)[4 * k + 1] == base64_digit((b[3 * k] % 4) * 16 + b[3 * k + 1] / 16)
            &&& base64_of(b)[4 * k + 2] == base64_digit((b[3 * k + 1] % 16) * 4 + b[3 * k + 2] / 64)
            &&& base64_of(b)[4 * k + 3] == base64_digit((b[3 * k + 2] % 64) as int)
        },
        3 * k + 2 == b.len() ==> {
            &&& base64_of(b)[4 * k] == base64_digit((b[3 * k] / 4) as int)
            &&& base64_of(b)[4 * k + 1] == base64_digit((b[3 * k] % 4) * 16 + b[3 * k + 1] / 16)
            &&& base64_of(b)[4 * k + 2] == base64_digit((b[3 * k + 1] % 16) * 4)
            &&& base64_of(b)[4 * k + 3] == '='
        },
        3 * k + 1 == b.len() ==> {
            &&& base64_of(b)[4 * k] == base64_digit((b[3 * k] / 4) as int)
            &&& base64_of(b)[4 * k + 1] == base64_digit((b[3 * k] % 4) * 16)
            &&& base64_of(b)[4 * k + 2] == '='
            &&& base64_of(b)[4 * k + 3] == '='
        },
    decreases b.len(),
{
    if b.len() >= 3 {
        let t = b.skip(3);
        let j: int = if k > 0 {
            k - 1
        } else {
            0
        };
        lemma_base64(t, j);
        let r = base64_of(b);
        let q = base64_of(t);
        assert(r.len() == 4 + q.len());
        if k > 0 && 3 * k < b.len() {
            assert(r[4 * k] == q[4 * j] && r[4 * k + 1] == q[4 * j + 1] && r[4 * k + 2] == q[4 * j + 2] && r[4 * k + 3]
                == q[4 * j + 3]);
            assert(t[3 * j] == b[3 * k]);
            if 3 * k + 1 < b.len() {
                assert(t[3 * j + 1] == b[3 * k + 1]);
            }
            if 3 * k + 2 < b.len() {
                assert(t[3 * j + 2] == b[3 * k + 2]);
            }
        }
    }
}

/// The hash of a package is that of an entry with its name and version, and the last one counts; without such
/// an entry there is none.
pub proof fn lemma_hash_for(s: Seq<HashView>, h: HashView, name: Seq<char>, version: Seq<char>)
    ensures
        match hash_for(s, name, version) {
            Some(sri) => s.contains(HashView { name, version, sri }),
            None => forall|i: int| 0 <= i < s.len() ==> !((#[trigger] s[i]).name == name && s[i].version == version),
        },
        hash_for(s.push(h), h.name, h.version) == Some(h.sri),
        h.name != name || h.version != version ==> hash_for(s.push(h), name, version) == hash_for(s, name, version),
    decreases s.len(),
{
    assert(s.push(h).drop_last() =~= s);
    if s.len() > 0 {
        let t = s.drop_last();
        let n = s.len() - 1;
        lemma_hash_for(t, h, name, version);
        if s.last().name == name && s.last().version == version {
            assert(s[n] == HashView { name, version, sri: s[n].sri });
        } else {
            match hash_for(t, name, version) {
                Some(sri) => {
                    let i = choose|i: int| 0 <= i < t.len() && t[i] == (HashView { name, version, sri });
                    assert(s[i] == t[i]);
                },
                None => {
                    assert forall|i: int| 0 <= i < s.len() implies !((#[trigger] s[i]).name == name && s[i].version
                        == version) by {
                        if i < n {
                            assert(t[i] == s[i]);
                        }
                    }
                },
            }
        }
    }
}

/// The hash that a `[[package]]` entry gives: that of its checksum, in the form that Nix takes, under its name
/// and version; an entry without a checksum, or with one that is not hexadecimal, gives none.
pub proof fn lemma_hash_in(p: Toml, name: Seq<char>, version: Seq<char>, hex: Seq<char>, b: Seq<u8>)
    requires
        toml_tree::field(p, "name"@) == Some(Toml::Text(name)),
        toml_tree::field(p, "version"@) == Some(Toml::Text(version)),
    ensures
        toml_tree::field(p, "checksum"@) == Some(Toml::Text(hex)) && hex_bytes(hex) == Some(b) ==> hash_in(p) == Some(
            HashView { name, version, sri: "sha256-"@ + base64_of(b) },
        ),
        toml_tree::field(p, "checksum"@) == Some(Toml::Text(hex)) && hex_bytes(hex) is None ==> hash_in(p) is None,
        toml_tree::field(p, "checksum"@) is None ==> hash_in(p) is None,
{
}

/// The hashes of a lock file are those of its packages.
pub proof fn lemma_lock_hashes(text: Seq<char>, t: Toml, items: Seq<Toml>, h: HashView)
    requires
        toml_tree::toml_parsed(text) == Ok::<Toml, Seq<char>>(t),
        toml_tree::field(t, "package"@) == Some(Toml::Array(items)),
    ensures
        lock_hashes(text).contains(h) <==> exists|k: int| 0 <= k < items.len() && hash_in(#[trigger] items[k]) == Some(h),
{
    let f = hash_at();
    if lock_hashes(text).contains(h) {
        lists::lemma_gathered_from(items, f, h);
        let k = choose|k: int| 0 <= k < items.len() && f(#[trigger] items[k]) == Some(h);
        assert(hash_in(items[k]) == Some(h));
    }
    if exists|k: int| 0 <= k < items.len() && hash_in(#[trigger] items[k]) == Some(h) {
        let k = choose|k: int| 0 <= k < items.len() && hash_in(#[trigger] items[k]) == Some(h);
        lists::lemma_filter_map_has(items, f, k, h);
    }
}

} // verus!
