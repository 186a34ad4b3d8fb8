use vstd::prelude::*;

use crate::codec::Row;
use crate::constants::{COLUMN_EMAIL_SIZE, COLUMN_USERNAME_SIZE, EMAIL_SIZE, USERNAME_SIZE};

verus! {

/// What `str::split_whitespace` yields for the characters `s`, each word as its characters.
pub uninterp spec fn whitespace_words(s: Seq<char>) -> Seq<Seq<char>>;

/// Relies on `str::split_whitespace`: the words of `s`, in order; the result depends on
/// the characters of `s` alone.
#[verifier::external_body]
fn split_words<'a>(s: &'a str) -> (r: Vec<&'a str>)
    ensures
        r@.map_values(|w: &'a str| w@) == whitespace_words(s@),
{
    s.split_whitespace().collect()
}

/// Relies on `<str as PartialEq>::eq`: two strings are equal when their characters are.
#[verifier::external_body]
fn str_eq(a: &str, b: &str) -> (r: bool)
    ensures
        r == (a@ == b@),
{
    a == b
}

/// `prefix` is a prefix of `s`.
pub open spec fn has_prefix(s: Seq<char>, prefix: Seq<char>) -> bool {
    prefix.len() <= s.len() && s.subrange(0, prefix.len() as int) == prefix
}

/// Relies on `str::starts_with` with a string pattern: whether `prefix` begins `s`.
#[verifier::external_body]
fn starts_with(s: &str, prefix: &str) -> (r: bool)
    ensures
        r == has_prefix(s@, prefix@),
{
    s.starts_with(prefix)
}

/// The number that the decimal digits `d` spell.
pub open spec fn digits_value(d: Seq<char>) -> int
    decreases d.len(),
{
    if d.len() == 0 {
        0
    } else {
        digits_value(d.drop_last()) * 10 + (d.last() as int - '0' as int)
    }
}

/// The digits of an unsigned decimal, after an optional leading `+`.
pub open spec fn unsigned_digits(s: Seq<char>) -> Seq<char> {
    if s.len() > 0 && s[0] == '+' {
        s.subrange(1, s.len() as int)
    } else {
        s
    }
}

/// The `u32` that `s` spells in decimal: an optional `+`, then one or more ASCII
/// digits whose value fits in 32 bits.
pub open spec fn decimal_u32(s: Seq<char>) -> Option<u32> {
    let d = unsigned_digits(s);
    if d.len() > 0 && (forall|i: int| 0 <= i < d.len() ==> '0' <= #[trigger] d[i] <= '9')
        && digits_value(d) <= u32::MAX {
        Some(digits_value(d) as u32)
    } else {
        None
    }
}

/// Relies on `<u32 as FromStr>::from_str`: it accepts exactly an optional `+` followed by
/// one or more ASCII digits whose value fits in a `u32`.
#[verifier::external_body]
fn parse_u32(s: &str) -> (r: Option<u32>)
    ensures
        r == decimal_u32(s@),
{
    s.parse::<u32>().ok()
}

/// `b` left-justified in `n` bytes, the rest zero.
pub open spec fn zero_padded(b: Seq<u8>, n: nat) -> Seq<u8> {
    b + Seq::new((n - b.len()) as nat, |i: int| 0u8)
}

/// The UTF-8 bytes of the characters `s`.
pub open spec fn utf8_of(s: Seq<char>) -> Seq<u8> {
    vstd::utf8::encode_utf8(s)
}

/// A meta command other than `.exit`.
#[derive(Debug)]
pub enum MetaCommandError<'a> {
    UnrecognizedCommand { meta: &'a str, input: &'a str },
}

/// Why a line is not a statement.
#[derive(Debug)]
pub enum PrepareError<'a> {
    UnrecognizedStatement { statement: &'a str, input: &'a str },
    InvalidInput { input: &'a str },
    InvalidId { id: &'a str, input: &'a str },
    NegativeNumber { id: &'a str, input: &'a str },
    UsernameTooLong { username: &'a str, input: &'a str },
    EmailTooLong { email: &'a str, input: &'a str },
}

/// The two kinds of statement.
#[derive(Debug, Clone, Copy, PartialEq, Eq, Structural)]
pub enum StatementType {
    Insert,
    Select,
}

/// A parsed statement: its kind and, for an insert, the record.
#[derive(Debug)]
pub struct Statement {
    pub stype: StatementType,
    pub row: Option<Row>,
}

/// What parsing a line comes to, the offending word kept as its characters.
pub ghost enum Parsed {
    Insert { id: u32, username: Seq<u8>, email: Seq<u8> },
    Select,
    UnrecognizedStatement(Seq<char>),
    InvalidInput,
    InvalidId(Seq<char>),
    NegativeNumber(Seq<char>),
    UsernameTooLong(Seq<char>),
    EmailTooLong(Seq<char>),
}

/// How a line whose words are `w` parses: `insert <id> <username> <email>` or `select`,
/// words past those ignored. The id may not start with `-`, must be a `u32` in decimal,
/// and the username and email may take at most `COLUMN_USERNAME_SIZE` and
/// `COLUMN_EMAIL_SIZE` bytes; each field is checked in turn, the first failure wins.
pub open spec fn parse_words(w: Seq<Seq<char>>) -> Parsed {
    if w.len() == 0 {
        Parsed::InvalidInput
    } else if w[0] == seq!['i', 'n', 's', 'e', 'r', 't'] {
        if w.len() < 2 {
            Parsed::InvalidInput
        } else if has_prefix(w[1], seq!['-']) {
            Parsed::NegativeNumber(w[1])
        } else if decimal_u32(w[1]) is None {
            Parsed::InvalidId(w[1])
        } else if w.len() < 3 {
            Parsed::InvalidInput
        } else if utf8_of(w[2]).len() > COLUMN_USERNAME_SIZE {
            Parsed::UsernameTooLong(w[2])
        } else if w.len() < 4 {
            Parsed::InvalidInput
        } else if utf8_of(w[3]).len() > COLUMN_EMAIL_SIZE {
            Parsed::EmailTooLong(w[3])
        } else {
            Parsed::Insert {
                id: decimal_u32(w[1])->0,
                username: zero_padded(utf8_of(w[2]), USERNAME_SIZE as nat),
                email: zero_padded(utf8_of(w[3]), EMAIL_SIZE as nat),
            }
        }
    } else if w[0] == seq!['s', 'e', 'l', 'e', 'c', 't'] {
        Parsed::Select
    } else {
        Parsed::UnrecognizedStatement(w[0])
    }
}

impl<'a> PrepareError<'a> {
    /// The whole line that failed to parse.
    pub open spec fn input(&self) -> &'a str {
        match self {
            PrepareError::UnrecognizedStatement { input, .. } => *input,
            PrepareError::InvalidInput { input } => *input,
            PrepareError::InvalidId { input, .. } => *input,
            PrepareError::NegativeNumber { input, .. } => *input,
            PrepareError::UsernameTooLong { input, .. } => *input,
            PrepareError::EmailTooLong { input, .. } => *input,
        }
    }

    /// The failure, as data.
    pub open spec fn parsed(&self) -> Parsed {
        match self {
            PrepareError::UnrecognizedStatement { statement, .. } => Parsed::UnrecognizedStatement(statement@),
            PrepareError::InvalidInput { .. } => Parsed::InvalidInput,
            PrepareError::InvalidId { id, .. } => Parsed::InvalidId(id@),
            PrepareError::NegativeNumber { id, .. } => Parsed::NegativeNumber(id@),
            PrepareError::UsernameTooLong { username, .. } => Parsed::UsernameTooLong(username@),
            PrepareError::EmailTooLong { email, .. } => Parsed::EmailTooLong(email@),
        }
    }
}

impl Statement {
    /// The statement, as data.
    pub open spec fn parsed(&self) -> Parsed {
        match self.stype {
            StatementType::Select => Parsed::Select,
            StatementType::Insert => match self.row {
                Some(r) => Parsed::Insert { id: r.id, username: r.username@, email: r.email@ },
                None => Parsed::InvalidInput,
            },
        }
    }

    /// Parses `insert <id> <username> <email>` or `select`.
    pub fn prepare_statement(input: &str) -> (r: Result<Statement, PrepareError<'_>>)
        ensures
            match r {
                Ok(s) => s.parsed() == parse_words(whitespace_words(input@)) && (s.row is Some <==> s.stype
                    == StatementType::Insert),
                Err(e) => e.parsed() == parse_words(whitespace_words(input@)) && e.input() == input,
            },
    {
        let parts = split_words(input);
        Statement::prepare_words(input, &parts)
    }

    /// Parses a line from its words, `parts`; an error carries `input`, the whole line.
    pub fn prepare_words<'a>(input: &'a str, parts: &Vec<&'a str>) -> (r: Result<Statement, PrepareError<'a>>)
        ensures
            match r {
                Ok(s) => s.parsed() == parse_words(parts@.map_values(|w: &'a str| w@)) && (s.row is Some
                    <==> s.stype == StatementType::Insert),
                Err(e) => e.parsed() == parse_words(parts@.map_values(|w: &'a str| w@)) && e.input() == input,
            },
    {
        let ghost w = parts@.map_values(|w: &'a str| w@);
        assert(parts@.len() == w.len());
        assert(forall|i: int| 0 <= i < parts@.len() ==> #[trigger] parts@[i]@ == w[i]);
        if parts.len() == 0 {
            return Err(PrepareError::InvalidInput { input });
        }
        let statement: &str = parts[0];
        assert(statement@ == w[0]);
        proof {
            reveal_strlit("insert");
            reveal_strlit("select");
        }
        assert("insert"@ =~= seq!['i', 'n', 's', 'e', 'r', 't']);
        assert("select"@ =~= seq!['s', 'e', 'l', 'e', 'c', 't']);
        if str_eq(statement, "insert") {
            assert(w[0] == seq!['i', 'n', 's', 'e', 'r', 't']);
            if parts.len() < 2 {
                return Err(PrepareError::InvalidInput { input });
            }
            let id_text: &str = parts[1];
            proof {
                reveal_strlit("-");
            }
            assert("-"@ =~= seq!['-']);
            assert(id_text@ == w[1]);
            if starts_with(id_text, "-") {
                return Err(PrepareError::NegativeNumber { id: id_text, input });
            }
            let id = match parse_u32(id_text) {
                Some(v) => v,
                None => {
                    return Err(PrepareError::InvalidId { id: id_text, input });
                },
            };
            if parts.len() < 3 {
                return Err(PrepareError::InvalidInput { input });
            }
            let name: &str = parts[2];
            assert(name@ == w[2]);
            let name_bytes: &[u8] = name.as_bytes();
            if name_bytes.len() > COLUMN_USERNAME_SIZE {
                return Err(PrepareError::UsernameTooLong { username: name, input });
            }
            let username = pad_username(name_bytes);
            if parts.len() < 4 {
                return Err(PrepareError::InvalidInput { input });
            }
            let mail: &str = parts[3];
            assert(mail@ == w[3]);
            let mail_bytes: &[u8] = mail.as_bytes();
            if mail_bytes.len() > COLUMN_EMAIL_SIZE {
                return Err(PrepareError::EmailTooLong { email: mail, input });
            }
            let email = pad_email(mail_bytes);
            Ok(Statement { stype: StatementType::Insert, row: Some(Row { id, username, email }) })
        } else if str_eq(statement, "select") {
            assert(w[0] != seq!['i', 'n', 's', 'e', 'r', 't']) by {
                assert(w[0][0] != 'i');
            }
            Ok(Statement { stype: StatementType::Select, row: None })
        } else {
            Err(PrepareError::UnrecognizedStatement { statement, input })
        }
    }
}

/// `b` zero-padded to the width of the username field.
fn pad_username(b: &[u8]) -> (out: [u8; USERNAME_SIZE])
    requires
        b@.len() <= USERNAME_SIZE,
    ensures
        out@ == zero_padded(b@, USERNAME_SIZE as nat),
{
    let mut out = [0u8; USERNAME_SIZE];
    let mut i: usize = 0;
    while i < b.len()
        invariant
            i <= b@.len() <= USERNAME_SIZE,
            forall|k: int| 0 <= k < USERNAME_SIZE ==> #[trigger] out@[k] == if k < i { b@[k] } else { 0u8 },
        decreases b@.len() - i,
    {
        out[i] = b[i];
        i = i + 1;
    }
    assert(out@ =~= zero_padded(b@, USERNAME_SIZE as nat));
    out
}

/// `b` zero-padded to the width of the email field.
fn pad_email(b: &[u8]) -> (out: [u8; EMAIL_SIZE])
    requires
        b@.len() <= EMAIL_SIZE,
    ensures
        out@ == zero_padded(b@, EMAIL_SIZE as nat),
{
    let mut out = [0u8; EMAIL_SIZE];
    let mut i: usize = 0;
    while i < b.len()
        invariant
            i <= b@.len() <= EMAIL_SIZE,
            forall|k: int| 0 <= k < EMAIL_SIZE ==> #[trigger] out@[k] == if k < i { b@[k] } else { 0u8 },
        decreases b@.len() - i,
    {
        out[i] = b[i];
        i = i + 1;
    }
    assert(out@ =~= zero_padded(b@, EMAIL_SIZE as nat));
    out
}

/// Handles a line that starts a meta command: `.exit` succeeds, anything else is
/// reported with its first word.
pub fn do_meta_command(input: &str) -> (r: Result<(), MetaCommandError<'_>>)
    ensures
        has_prefix(input@, seq!['.', 'e', 'x', 'i', 't']) ==> r is Ok,
        !has_prefix(input@, seq!['.', 'e', 'x', 'i', 't']) ==> match r {
            Err(MetaCommandError::UnrecognizedCommand { meta, input: i }) => i == input && meta@ == if whitespace_words(input@).len() > 0 {
                whitespace_words(input@)[0]
            } else {
                Seq::<char>::empty()
            },
            Ok(()) => false,
        },
{
    proof {
        reveal_strlit(".exit");
        reveal_strlit("");
    }
    assert(".exit"@ =~= seq!['.', 'e', 'x', 'i', 't']);
    if starts_with(input, ".exit") {
        return Ok(());
    }
    let parts = split_words(input);
    let ghost w = whitespace_words(input@);
    assert(parts@.len() == w.len());
    let meta: &str = if parts.len() > 0 {
        assert(parts@[0]@ == w[0]);
        parts[0]
    } else {
        ""
    };
    Err(MetaCommandError::UnrecognizedCommand { meta, input })
}

} // verus!
