//! Log lines.
use vstd::prelude::*;
use vstd::string::*;


verus! {

/// A log line.
#[derive(Debug, Clone)]
pub struct LogMessage {
    pub timestamp: String,
    pub level: String,
    pub target: String,
    pub message: String,
}

/// Gathers the fields of an event into a text.
#[derive(Debug)]
pub struct StringVisitor {
    pub message: String,
}

/// The text in quotes, without them.
pub open spec fn unquoted(text: Seq<char>) -> Seq<char> {
    if text.len() >= 2 && text[0] == '"' && text[text.len() - 1] == '"' {
        text.subrange(1, text.len() - 1)
    } else {
        text
    }
}

impl StringVisitor {
    pub fn new() -> (r: Self)
        ensures
            r.message@ == Seq::<char>::empty(),
    {
        StringVisitor { message: String::new() }
    }

    /// The text after a field with the given value, as written for debugging: the message
    /// itself, without quotes, takes the place of what is there; any other field is added
    /// with its name.
    pub open spec fn after(before: Seq<char>, field: Seq<char>, value: Seq<char>) -> Seq<char> {
        if field == "message"@ {
            unquoted(value)
        } else {
            before + " "@ + field + "="@ + value
        }
    }

    /// Takes in a field. A value that is a single quotation mark is not one that the
    /// debugging form of any value has.
    pub fn record_debug(&mut self, field: &str, value: &str)
        requires
            value@ != seq!['"'],
        ensures
            final(self).message@ == Self::after(old(self).message@, field@, value@),
    {
        proof {
            reveal_strlit("message");
        }
        if same_text(field, "message") {
            let n: usize = value.unicode_len();
            if n >= 2 && value.get_char(0) == '"' && value.get_char(n - 1) == '"' {
                self.message = String::from_str(value.substring_char(1, n - 1));
            } else {
                self.message = String::from_str(value);
            }
        } else {
            self.message.append(" ");
            self.message.append(field);
            self.message.append("=");
            self.message.append(value);
            assert(self.message@ =~= Self::after(old(self).message@, field@, value@));
        }
    }
}

/// Whether two texts are the same.
pub fn same_text(a: &str, b: &str) -> (r: bool)
    ensures
        r == (a@ == b@),
{
    let n: usize = a.unicode_len();
    if n != b.unicode_len() {
        return false;
    }
    let mut i: usize = 0;
    while i < n
        invariant
            i <= n,
            n == a@.len(),
            n == b@.len(),
            forall|j: int| 0 <= j < i ==> a@[j] == b@[j],
        decreases n - i,
    {
        if a.get_char(i) != b.get_char(i) {
            return false;
        }
        i += 1;
    }
    assert(a@ =~= b@);
    true
}

/// Text between quotation marks stands for what is between them, and other text for itself.
pub proof fn law_quotes_come_off(s: Seq<char>)
    ensures
        unquoted(seq!['"'] + s + seq!['"']) == s,
        s.len() > 0 && s[0] != '"' ==> unquoted(s) == s,
        s.len() > 0 && s.last() != '"' ==> unquoted(s) == s,
        s.len() < 2 ==> unquoted(s) == s,
{
    assert(unquoted(seq!['"'] + s + seq!['"']) =~= s);
}

/// The message of an event takes the place of what was gathered; any other field comes behind it,
/// with its name.
pub proof fn law_fields_are_gathered(before: Seq<char>, field: Seq<char>, value: Seq<char>)
    ensures
        StringVisitor::after(before, "message"@, value) == unquoted(value),
        field != "message"@ ==> StringVisitor::after(before, field, value) == before + (seq![' '] + field + seq!['='] + value),
{
    reveal_strlit(" ");
    reveal_strlit("=");
    if field != "message"@ {
        assert(" "@ =~= seq![' ']);
        assert("="@ =~= seq!['=']);
        assert(StringVisitor::after(before, field, value) =~= before + (seq![' '] + field + seq!['='] + value));
    }
}

/// What the fields of an event come to.
pub proof fn law_fields_that_are_recorded(field: &str, value: &str)
    ensures
        forall|v: &mut StringVisitor| #[trigger]
            call_ensures(StringVisitor::record_debug, (v, field, value), ()) && field@ == "message"@ ==> final(v).message@ == unquoted(
                value@,
            ),
        forall|v: &mut StringVisitor| #[trigger]
            call_ensures(StringVisitor::record_debug, (v, field, value), ()) && field@ != "message"@ ==> final(v).message@ == v.message@
                + (seq![' '] + field@ + seq!['='] + value@),
{
    assert forall|v: &mut StringVisitor| #[trigger]
        call_ensures(StringVisitor::record_debug, (v, field, value), ()) && field@ != "message"@ implies final(v).message@ == v.message@ + (
    seq![' '] + field@ + seq!['='] + value@) by {
        law_fields_are_gathered(v.message@, field@, value@);
    }
}

} // verus!
