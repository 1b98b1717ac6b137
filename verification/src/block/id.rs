//! Stable identities used by the shell lifecycle protocol.

use vstd::prelude::*;

verus! {

/// Identity of the terminal session whose shell events are accepted.
#[derive(Debug, PartialEq, Eq, Hash)]
pub struct TerminalSessionId {
    value: String,
}

/// Identity of one (possibly nested) shell context inside a session.
#[derive(Debug, PartialEq, Eq, Hash)]
pub struct ShellInstanceId {
    value: String,
}

/// Stable identity of a terminal block.
#[derive(Debug, PartialEq, Eq, Hash)]
pub struct BlockId {
    value: String,
}

/// Ordered position of one event in a shell's protocol stream.
#[derive(Clone, Copy, Debug, PartialEq, Eq, PartialOrd, Ord, Hash)]
pub struct ProtocolSequence {
    value: u64,
}

impl View for TerminalSessionId {
    type V = Seq<char>;

    closed spec fn view(&self) -> Seq<char> {
        self.value@
    }
}

impl View for ShellInstanceId {
    type V = Seq<char>;

    closed spec fn view(&self) -> Seq<char> {
        self.value@
    }
}

impl View for BlockId {
    type V = Seq<char>;

    closed spec fn view(&self) -> Seq<char> {
        self.value@
    }
}

impl Clone for TerminalSessionId {
    fn clone(&self) -> (copy: Self)
        ensures
            copy == *self,
    {
        TerminalSessionId { value: self.value.clone() }
    }
}

impl Clone for ShellInstanceId {
    fn clone(&self) -> (copy: Self)
        ensures
            copy == *self,
    {
        ShellInstanceId { value: self.value.clone() }
    }
}

impl Clone for BlockId {
    fn clone(&self) -> (copy: Self)
        ensures
            copy == *self,
    {
        BlockId { value: self.value.clone() }
    }
}

impl TerminalSessionId {
    /// Create a session identity from its textual form.
    pub fn new(value: &str) -> (id: Self)
        ensures
            id@ == value@,
    {
        TerminalSessionId { value: value.to_owned() }
    }

    /// Borrow the textual form.
    pub fn as_str(&self) -> (text: &str)
        ensures
            text@ == self@,
    {
        self.value.as_str()
    }

    /// Whether both identities have the same textual form.
    pub fn same_as(&self, other: &Self) -> (same: bool)
        ensures
            same == (self@ == other@),
    {
        self.value == other.value
    }
}

impl ShellInstanceId {
    /// Create a shell identity from its textual form.
    pub fn new(value: &str) -> (id: Self)
        ensures
            id@ == value@,
    {
        ShellInstanceId { value: value.to_owned() }
    }

    /// Borrow the textual form.
    pub fn as_str(&self) -> (text: &str)
        ensures
            text@ == self@,
    {
        self.value.as_str()
    }

    /// Whether both identities have the same textual form.
    pub fn same_as(&self, other: &Self) -> (same: bool)
        ensures
            same == (self@ == other@),
    {
        self.value == other.value
    }
}

/// Decimal digits of `n`, most significant first.
pub open spec fn decimal_digits(n: nat) -> Seq<char>
    decreases n,
{
    if n < 10 {
        seq![digit_char(n)]
    } else {
        decimal_digits(n / 10).push(digit_char(n % 10))
    }
}

/// The ASCII digit for a value below ten.
pub open spec fn digit_char(d: nat) -> char {
    if d == 0 { '0' }
    else if d == 1 { '1' }
    else if d == 2 { '2' }
    else if d == 3 { '3' }
    else if d == 4 { '4' }
    else if d == 5 { '5' }
    else if d == 6 { '6' }
    else if d == 7 { '7' }
    else if d == 8 { '8' }
    else { '9' }
}

fn digit_str(d: u64) -> (text: &'static str)
    requires
        d < 10,
    ensures
        text@ == seq![digit_char(d as nat)],
{
    proof {
        reveal_strlit("0");
        reveal_strlit("1");
        reveal_strlit("2");
        reveal_strlit("3");
        reveal_strlit("4");
        reveal_strlit("5");
        reveal_strlit("6");
        reveal_strlit("7");
        reveal_strlit("8");
        reveal_strlit("9");
    }
    if d == 0 { "0" }
    else if d == 1 { "1" }
    else if d == 2 { "2" }
    else if d == 3 { "3" }
    else if d == 4 { "4" }
    else if d == 5 { "5" }
    else if d == 6 { "6" }
    else if d == 7 { "7" }
    else if d == 8 { "8" }
    else { "9" }
}

/// Append the decimal form of `n` to `out`.
pub fn push_decimal(out: &mut String, n: u64)
    ensures
        final(out)@ == old(out)@ + decimal_digits(n as nat),
    decreases n,
{
    if n < 10 {
        out.append(digit_str(n));
    } else {
        push_decimal(out, n / 10);
        out.append(digit_str(n % 10));
        proof {
            assert(decimal_digits(n as nat) == decimal_digits((n / 10) as nat).push(digit_char((n % 10) as nat)));
        }
    }
}

/// Textual form of a block created by a shell: `otty:<session>:<shell>:<sequence>`.
pub open spec fn terminal_block_text(session: Seq<char>, shell: Seq<char>, sequence: nat) -> Seq<char> {
    seq!['o', 't', 't', 'y', ':'] + session + seq![':'] + shell + seq![':'] + decimal_digits(sequence)
}

impl BlockId {
    /// Create a block identity from its textual form.
    pub fn new(value: &str) -> (id: Self)
        ensures
            id@ == value@,
    {
        BlockId { value: value.to_owned() }
    }

    /// Identity of the block that a shell announced at `sequence`.
    pub fn terminal(session: &TerminalSessionId, shell: &ShellInstanceId, sequence: u64) -> (id: Self)
        ensures
            id@ == terminal_block_text(session@, shell@, sequence as nat),
    {
        let mut value = String::new();
        value.append("otty:");
        value.append(session.as_str());
        value.append(":");
        value.append(shell.as_str());
        value.append(":");
        push_decimal(&mut value, sequence);
        proof {
            reveal_strlit("otty:");
            reveal_strlit(":");
            assert(value@ =~= terminal_block_text(session@, shell@, sequence as nat));
        }
        BlockId { value }
    }

    /// Borrow the textual form.
    pub fn as_str(&self) -> (text: &str)
        ensures
            text@ == self@,
    {
        self.value.as_str()
    }

    /// Whether both identities have the same textual form.
    pub fn same_as(&self, other: &Self) -> (same: bool)
        ensures
            same == (self@ == other@),
    {
        self.value == other.value
    }
}

impl ProtocolSequence {
    /// The sequence whose raw number is `value`.
    pub closed spec fn from_value(value: u64) -> ProtocolSequence {
        ProtocolSequence { value }
    }

    /// Wrap a raw sequence number.
    pub fn new(value: u64) -> (sequence: Self)
        ensures
            sequence == Self::from_value(value),
    {
        ProtocolSequence { value }
    }

    /// Raw sequence number.
    #[verifier::when_used_as_spec(spec_value)]
    pub fn value(&self) -> (value: u64)
        ensures
            value == self.spec_value(),
    {
        self.value
    }

    /// Raw sequence number, in specifications.
    pub closed spec fn spec_value(&self) -> u64 {
        self.value
    }

    /// The sequence that directly follows this one, if representable.
    pub fn next(&self) -> (next: Option<Self>)
        ensures
            next.is_some() <==> self.spec_value() < u64::MAX,
            next.is_some() ==> next.unwrap() == Self::from_value((self.spec_value() + 1) as u64),
    {
        if self.value < u64::MAX {
            Some(ProtocolSequence { value: self.value + 1 })
        } else {
            None
        }
    }

}

/// Two sequences are equal exactly when their numbers are.
pub broadcast proof fn lemma_sequence_value_injective(a: ProtocolSequence, b: ProtocolSequence)
    ensures
        #![trigger a.spec_value(), b.spec_value()]
        a.spec_value() == b.spec_value() <==> a == b,
{
}

/// The number of a wrapped value is that value.
pub broadcast proof fn lemma_sequence_from_value(value: u64)
    ensures
        #[trigger] ProtocolSequence::from_value(value).spec_value() == value,
{
}

} // verus!
