//! The settings the agent runs with, and the addresses derived from them.
use vstd::prelude::*;

verus! {

/// The settings, read from the environment at start-up.
pub struct ConfigData {
    pub database_url: String,
    pub jwt_secret: String,
    pub server_host: String,
    pub server_port: u16,
    pub model: String,
    pub openai_api_key: String,
    pub openai_base_url: String,
}

/// The decimal digit for `d` (0 to 9).
pub open spec fn digit(d: nat) -> char {
    (48 + d) as char
}

/// The decimal numeral of `n`, without leading zeros.
pub open spec fn decimal(n: nat) -> Seq<char>
    decreases n,
{
    if n < 10 {
        seq![digit(n)]
    } else {
        decimal(n / 10).push(digit(n % 10))
    }
}

/// The decimal numeral of `n`.
pub fn decimal_string(n: u16) -> (s: String)
    ensures
        s@ == decimal(n as nat),
{
    let mut digits: Vec<char> = Vec::new();
    let mut m: u16 = n;
    // Collect the digits, least significant first.
    loop
        invariant_except_break
            decimal(n as nat) == decimal(m as nat) + digits@.reverse(),
        ensures
            decimal(n as nat) == digits@.reverse(),
        decreases m,
    {
        let d: u16 = m % 10;
        let c: char = match d {
            0 => '0',
            1 => '1',
            2 => '2',
            3 => '3',
            4 => '4',
            5 => '5',
            6 => '6',
            7 => '7',
            8 => '8',
            _ => '9',
        };
        assert(c == digit(d as nat));
        let ghost before = digits@;
        digits.push(c);
        if m < 10 {
            assert(decimal(m as nat) == seq![c]);
            assert(digits@.reverse() =~= seq![c] + before.reverse());
            assert(decimal(n as nat) =~= digits@.reverse());
            break;
        }
        assert(decimal(m as nat) == decimal((m / 10) as nat).push(c));
        assert(digits@.reverse() =~= seq![c] + before.reverse());
        m = m / 10;
    }
    let mut s = String::new();
    let mut i: usize = digits.len();
    while i > 0
        invariant
            i <= digits.len(),
            s@ == digits@.subrange(i as int, digits.len() as int).reverse(),
        decreases i,
    {
        i = i - 1;
        crate::text::push_char(&mut s, digits[i]);
        assert(digits@.subrange(i as int, digits.len() as int).reverse() =~= digits@.subrange(i + 1, digits.len() as int).reverse().push(digits@[i as int]));
    }
    assert(digits@.subrange(0, digits.len() as int) =~= digits@);
    assert(s@ =~= decimal(n as nat));
    s
}

/// `a` followed by `b`.
fn concat(a: &str, b: &str) -> (r: String)
    ensures
        r@ == a@ + b@,
{
    let mut r = a.to_owned();
    r.append(b);
    r
}

impl ConfigData {
    /// `host:port`, the address the server listens on.
    pub fn server_addr(&self) -> (r: String)
        ensures
            r@ == self.server_host@ + ":"@ + decimal(self.server_port as nat),
    {
        let mut r = concat(self.server_host.as_str(), ":");
        let port = decimal_string(self.server_port);
        r.append(port.as_str());
        r
    }

    /// The address of the SQLite database, created when missing.
    pub fn sqlite_url(&self) -> (r: String)
        ensures
            r@ == "sqlite://"@ + self.database_url@ + "?mode=rwc"@,
    {
        let mut r = concat("sqlite://", self.database_url.as_str());
        r.append("?mode=rwc");
        r
    }

    /// The model server's chat-completions endpoint.
    pub fn completions_url(&self) -> (r: String)
        ensures
            r@ == self.openai_base_url@ + "/chat/completions"@,
    {
        concat(self.openai_base_url.as_str(), "/chat/completions")
    }

    /// The value of the `Authorization` header sent to the model server.
    pub fn authorization(&self) -> (r: String)
        ensures
            r@ == "Bearer "@ + self.openai_api_key@,
    {
        concat("Bearer ", self.openai_api_key.as_str())
    }
}

} // verus!
