use vstd::prelude::*;

verus! {

/// The port used when none is configured.
pub const DEFAULT_PORT: u16 = 50051;

/// Process configuration: the port the transport layer listens on.
#[derive(Debug, Clone, Copy, PartialEq, Eq)]
pub struct Config {
    pub port: u16,
}

pub open spec fn is_digit(c: char) -> bool {
    '0' <= c <= '9'
}

/// The number that a string of decimal digits spells.
pub open spec fn digits_value(s: Seq<char>) -> nat
    decreases s.len(),
{
    if s.len() == 0 {
        0
    } else {
        digits_value(s.drop_last()) * 10 + ((s.last() as nat) - ('0' as nat)) as nat
    }
}

/// The digits of a port setting: the text without one leading `+`.
pub open spec fn port_digits(s: Seq<char>) -> Seq<char> {
    if s.len() > 0 && s[0] == '+' {
        s.drop_first()
    } else {
        s
    }
}

/// `s` is a decimal number, optionally signed `+`, that fits in 16 bits.
pub open spec fn is_port_text(s: Seq<char>) -> bool {
    let d = port_digits(s);
    &&& d.len() > 0
    &&& forall|i: int| 0 <= i < d.len() ==> is_digit(#[trigger] d[i])
    &&& digits_value(d) <= u16::MAX
}

proof fn lemma_digits_prefix(s: Seq<char>, k: int)
    requires
        0 <= k <= s.len(),
        forall|i: int| 0 <= i < s.len() ==> is_digit(#[trigger] s[i]),
    ensures
        digits_value(s.take(k)) <= digits_value(s),
    decreases s.len() - k,
{
    if k < s.len() {
        lemma_digits_prefix(s, k + 1);
        assert(s.take(k + 1).drop_last() =~= s.take(k));
    } else {
        assert(s.take(k) =~= s);
    }
}

/// The port that `s` spells, or `None` where it is not a port setting.
fn parse_port(s: &str) -> (r: Option<u16>)
    ensures
        r is Some <==> is_port_text(s@),
        r is Some ==> r->0 == digits_value(port_digits(s@)),
{
    let len = s.unicode_len();
    let skip: usize = if len > 0 && s.get_char(0) == '+' {
        1
    } else {
        0
    };
    let digits = s.substring_char(skip, len);
    assert(digits@ =~= port_digits(s@));
    let n = digits.unicode_len();
    if n == 0 {
        return None;
    }
    let ghost d = digits@;
    let mut v: u32 = 0;
    let mut i: usize = 0;
    assert(d.take(0) =~= Seq::<char>::empty());
    while i < n
        invariant
            d == port_digits(s@),
            d == digits@,
            n == d.len(),
            i <= n,
            forall|j: int| 0 <= j < i ==> is_digit(#[trigger] d[j]),
            v == digits_value(d.take(i as int)),
            v <= u16::MAX,
        decreases n - i,
    {
        let c = digits.get_char(i);
        if c < '0' || c > '9' {
            return None;
        }
        let next = v * 10 + (c as u32 - '0' as u32);
        assert(d.take(i + 1).drop_last() =~= d.take(i as int));
        if next > 65535 {
            proof {
                if forall|j: int| 0 <= j < d.len() ==> is_digit(#[trigger] d[j]) {
                    lemma_digits_prefix(d, i + 1);
                }
            }
            return None;
        }
        v = next;
        i += 1;
    }
    assert(d.take(n as int) =~= d);
    Some(v as u16)
}

/// `s` is a port setting: a 16-bit decimal number, optionally signed `+`.
pub fn is_port_setting(s: &str) -> (r: bool)
    ensures
        r == is_port_text(s@),
{
    parse_port(s).is_some()
}

impl Config {
    /// The configuration for a port setting: the default where there is
    /// none. A setting that is not a port number is a configuration error
    /// that callers rule out first (see `is_port_setting`).
    pub fn from_port_setting(value: Option<&str>) -> (r: Config)
        requires
            value is Some ==> is_port_text(value->0@),
        ensures
            value is None ==> r == (Config { port: DEFAULT_PORT }),
            value is Some ==> r.port == digits_value(port_digits(value->0@)),
    {
        match value {
            None => Config { port: DEFAULT_PORT },
            Some(s) => match parse_port(s) {
                Some(port) => Config { port },
                None => Config { port: DEFAULT_PORT },
            },
        }
    }
}

} // verus!
