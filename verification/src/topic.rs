//! The topic model: event kinds, their string names, and epoch-scoped
//! topic identifiers.
//!
//! Every event kind has one fixed, human-readable name; parsing accepts
//! exactly those names, case-sensitively, and fails with
//! [`TopicParseError::InvalidTopic`] on everything else. An epoch-scoped
//! topic is the decimal epoch, a `-` separator, and the kind's name, so
//! topics are never reused across epochs.

use vstd::prelude::*;
use vstd::string::StrSliceExecFns;
use vstd::string::StringExecFns;

verus! {

broadcast use vstd::string::group_string_axioms;

/// Error returned when a string names no known event kind.
#[derive(PartialEq, Eq, Structural, Clone, Copy, Debug)]
pub enum TopicParseError {
    InvalidTopic,
}

/// The closed set of event kinds published for one committed transaction.
///
/// Extensible only by adding variants; existing names never change.
#[derive(PartialEq, Eq, Structural, Clone, Copy, Debug)]
pub enum TxInfoNodeStreamTopic {
    String,
    PackagePublish,
    ObjectChangeLight,
    ObjectChangeRaw,
    MoveCall,
    Transaction,
    Effects,
    GasCostSummary,
}

/// The fixed string name of an event kind.
pub open spec fn spec_topic_name(k: TxInfoNodeStreamTopic) -> Seq<char> {
    match k {
        TxInfoNodeStreamTopic::String => "string"@,
        TxInfoNodeStreamTopic::PackagePublish => "package_publish"@,
        TxInfoNodeStreamTopic::ObjectChangeLight => "object_change_light"@,
        TxInfoNodeStreamTopic::ObjectChangeRaw => "object_change_raw"@,
        TxInfoNodeStreamTopic::MoveCall => "move_call"@,
        TxInfoNodeStreamTopic::Transaction => "transaction"@,
        TxInfoNodeStreamTopic::Effects => "effects"@,
        TxInfoNodeStreamTopic::GasCostSummary => "gas_cost_summary"@,
    }
}

/// String equality on views, decided character by character.
fn str_eq(a: &str, b: &str) -> (r: bool)
    ensures
        r == (a@ == b@),
{
    let alen = a.unicode_len();
    let blen = b.unicode_len();
    if alen != blen {
        return false;
    }
    let mut i: usize = 0;
    while i < alen
        invariant
            i <= alen,
            alen == a@.len(),
            alen == b@.len(),
            forall|j: int| 0 <= j < i ==> a@[j] == b@[j],
        decreases alen - i,
    {
        if a.get_char(i) != b.get_char(i) {
            return false;
        }
        i = i + 1;
    }
    proof {
        assert(a@ =~= b@);
    }
    true
}

impl TxInfoNodeStreamTopic {
    /// The kind's name: total, pure, one fixed string per kind.
    pub fn topic_name(&self) -> (r: String)
        ensures
            r@ == spec_topic_name(*self),
    {
        match self {
            TxInfoNodeStreamTopic::String => String::from_str("string"),
            TxInfoNodeStreamTopic::PackagePublish => String::from_str("package_publish"),
            TxInfoNodeStreamTopic::ObjectChangeLight => String::from_str("object_change_light"),
            TxInfoNodeStreamTopic::ObjectChangeRaw => String::from_str("object_change_raw"),
            TxInfoNodeStreamTopic::MoveCall => String::from_str("move_call"),
            TxInfoNodeStreamTopic::Transaction => String::from_str("transaction"),
            TxInfoNodeStreamTopic::Effects => String::from_str("effects"),
            TxInfoNodeStreamTopic::GasCostSummary => String::from_str("gas_cost_summary"),
        }
    }

    /// Parses a kind from its name. Succeeds exactly on the strings
    /// `topic_name` produces; everything else is an invalid topic.
    pub fn from_str(s: &str) -> (r: Result<Self, TopicParseError>)
        ensures
            match r {
                Ok(k) => s@ == spec_topic_name(k),
                Err(e) => {
                    &&& e == TopicParseError::InvalidTopic
                    &&& forall|k: TxInfoNodeStreamTopic| s@ != spec_topic_name(k)
                },
            },
    {
        if str_eq(s, "string") {
            Ok(TxInfoNodeStreamTopic::String)
        } else if str_eq(s, "package_publish") {
            Ok(TxInfoNodeStreamTopic::PackagePublish)
        } else if str_eq(s, "object_change_light") {
            Ok(TxInfoNodeStreamTopic::ObjectChangeLight)
        } else if str_eq(s, "object_change_raw") {
            Ok(TxInfoNodeStreamTopic::ObjectChangeRaw)
        } else if str_eq(s, "move_call") {
            Ok(TxInfoNodeStreamTopic::MoveCall)
        } else if str_eq(s, "transaction") {
            Ok(TxInfoNodeStreamTopic::Transaction)
        } else if str_eq(s, "effects") {
            Ok(TxInfoNodeStreamTopic::Effects)
        } else if str_eq(s, "gas_cost_summary") {
            Ok(TxInfoNodeStreamTopic::GasCostSummary)
        } else {
            Err(TopicParseError::InvalidTopic)
        }
    }
}

/// The length of each kind's name; no two kinds share one.
spec fn spec_topic_name_len(k: TxInfoNodeStreamTopic) -> int {
    match k {
        TxInfoNodeStreamTopic::String => 6,
        TxInfoNodeStreamTopic::PackagePublish => 15,
        TxInfoNodeStreamTopic::ObjectChangeLight => 19,
        TxInfoNodeStreamTopic::ObjectChangeRaw => 17,
        TxInfoNodeStreamTopic::MoveCall => 9,
        TxInfoNodeStreamTopic::Transaction => 11,
        TxInfoNodeStreamTopic::Effects => 7,
        TxInfoNodeStreamTopic::GasCostSummary => 16,
    }
}

/// Law: distinct event kinds carry distinct names, so a formatted name
/// parses back to the kind it came from.
pub proof fn lemma_topic_names_injective(k1: TxInfoNodeStreamTopic, k2: TxInfoNodeStreamTopic)
    ensures
        spec_topic_name(k1) == spec_topic_name(k2) ==> k1 == k2,
{
    reveal_strlit("string");
    reveal_strlit("package_publish");
    reveal_strlit("object_change_light");
    reveal_strlit("object_change_raw");
    reveal_strlit("move_call");
    reveal_strlit("transaction");
    reveal_strlit("effects");
    reveal_strlit("gas_cost_summary");
    assert forall|k: TxInfoNodeStreamTopic| #[trigger] spec_topic_name(k).len()
        == spec_topic_name_len(k) by {
        match k {
            TxInfoNodeStreamTopic::String => assert(spec_topic_name(k).len() == 6),
            TxInfoNodeStreamTopic::PackagePublish => assert(spec_topic_name(k).len() == 15),
            TxInfoNodeStreamTopic::ObjectChangeLight => assert(spec_topic_name(k).len() == 19),
            TxInfoNodeStreamTopic::ObjectChangeRaw => assert(spec_topic_name(k).len() == 17),
            TxInfoNodeStreamTopic::MoveCall => assert(spec_topic_name(k).len() == 9),
            TxInfoNodeStreamTopic::Transaction => assert(spec_topic_name(k).len() == 11),
            TxInfoNodeStreamTopic::Effects => assert(spec_topic_name(k).len() == 7),
            TxInfoNodeStreamTopic::GasCostSummary => assert(spec_topic_name(k).len() == 16),
        }
    }
    if spec_topic_name(k1) == spec_topic_name(k2) {
        assert(spec_topic_name(k1).len() == spec_topic_name_len(k1));
        assert(spec_topic_name(k2).len() == spec_topic_name_len(k2));
        assert(spec_topic_name_len(k1) == spec_topic_name_len(k2));
    }
}

/// The decimal digit character for one digit value.
pub open spec fn digit_char(d: u64) -> char
    recommends
        d < 10,
{
    if d == 0 {
        '0'
    } else if d == 1 {
        '1'
    } else if d == 2 {
        '2'
    } else if d == 3 {
        '3'
    } else if d == 4 {
        '4'
    } else if d == 5 {
        '5'
    } else if d == 6 {
        '6'
    } else if d == 7 {
        '7'
    } else if d == 8 {
        '8'
    } else {
        '9'
    }
}

/// True of the ten decimal digit characters.
pub open spec fn is_decimal_char(c: char) -> bool {
    c == '0' || c == '1' || c == '2' || c == '3' || c == '4' || c == '5' || c == '6' || c == '7'
        || c == '8' || c == '9'
}

/// The decimal representation of an integer, most significant digit first,
/// with no leading zeros (`0` itself is the single digit `0`).
pub open spec fn spec_decimal_digits(n: u64) -> Seq<char>
    decreases n,
{
    if n < 10 {
        seq![digit_char(n)]
    } else {
        spec_decimal_digits(n / 10).push(digit_char(n % 10))
    }
}

fn digit_str(d: u64) -> (r: &'static str)
    requires
        d < 10,
    ensures
        r@ == seq![digit_char(d)],
{
    proof {
        reveal_strlit("0");
        reveal_strlit("1");
        reveal_strlit("2");
        reveal_strlit("3");
        reveal_strlit("4");
        reveal_strlit("5");
        reveal_strlit("6");
        reveal_strlit("7");
        reveal_strlit("8");
        reveal_strlit("9");
    }
    let r: &'static str = if d == 0 {
        "0"
    } else if d == 1 {
        "1"
    } else if d == 2 {
        "2"
    } else if d == 3 {
        "3"
    } else if d == 4 {
        "4"
    } else if d == 5 {
        "5"
    } else if d == 6 {
        "6"
    } else if d == 7 {
        "7"
    } else if d == 8 {
        "8"
    } else {
        "9"
    };
    proof {
        assert(r@ =~= seq![digit_char(d)]);
    }
    r
}

/// Renders an integer in decimal.
pub fn decimal_digits_string(n: u64) -> (s: String)
    ensures
        s@ == spec_decimal_digits(n),
    decreases n,
{
    if n < 10 {
        String::from_str(digit_str(n))
    } else {
        let mut s = decimal_digits_string(n / 10);
        s.append(digit_str(n % 10));
        proof {
            assert(s@ =~= spec_decimal_digits(n));
        }
        s
    }
}

/// A fully qualified stream partition identifier.
pub struct NodeStreamTopic {
    pub name: String,
}

impl View for NodeStreamTopic {
    type V = Seq<char>;

    open spec fn view(&self) -> Seq<char> {
        self.name@
    }
}

impl NodeStreamTopic {
    pub fn new(name: String) -> (r: Self)
        ensures
            r@ == name@,
    {
        NodeStreamTopic { name }
    }
}

/// The epoch-scoped topic identifier: `"{epoch}-{kind name}"`.
pub open spec fn spec_topic_for_epoch(k: TxInfoNodeStreamTopic, epoch: u64) -> Seq<char> {
    spec_decimal_digits(epoch) + seq!['-'] + spec_topic_name(k)
}

impl TxInfoNodeStreamTopic {
    /// Derives the epoch-scoped topic this kind is published on.
    pub fn topic_for_epoch(&self, epoch: u64) -> (r: NodeStreamTopic)
        ensures
            r@ == spec_topic_for_epoch(*self, epoch),
    {
        let mut s = decimal_digits_string(epoch);
        proof {
            reveal_strlit("-");
        }
        s.append("-");
        let name = self.topic_name();
        s.append(name.as_str());
        proof {
            assert(s@ =~= spec_topic_for_epoch(*self, epoch));
        }
        NodeStreamTopic::new(s)
    }
}

proof fn lemma_decimal_digits_shape(n: u64)
    ensures
        spec_decimal_digits(n).len() >= 1,
        n >= 10 ==> spec_decimal_digits(n).len() >= 2,
        forall|i: int|
            0 <= i < spec_decimal_digits(n).len() ==> is_decimal_char(
                #[trigger] spec_decimal_digits(n)[i],
            ),
    decreases n,
{
    if n >= 10 {
        lemma_decimal_digits_shape(n / 10);
    }
}

proof fn lemma_digit_char_injective(x: u64, y: u64)
    requires
        x < 10,
        y < 10,
        digit_char(x) == digit_char(y),
    ensures
        x == y,
{
}

proof fn lemma_decimal_digits_injective(a: u64, b: u64)
    requires
        spec_decimal_digits(a) == spec_decimal_digits(b),
    ensures
        a == b,
    decreases a,
{
    lemma_decimal_digits_shape(a);
    lemma_decimal_digits_shape(b);
    if a < 10 && b < 10 {
        assert(spec_decimal_digits(a)[0] == digit_char(a));
        assert(spec_decimal_digits(b)[0] == digit_char(b));
        lemma_digit_char_injective(a, b);
    } else if a < 10 {
        assert(spec_decimal_digits(a).len() == 1);
    } else if b < 10 {
        assert(spec_decimal_digits(b).len() == 1);
    } else {
        let da = spec_decimal_digits(a);
        let db = spec_decimal_digits(b);
        assert(da.last() == digit_char(a % 10));
        assert(db.last() == digit_char(b % 10));
        lemma_digit_char_injective(a % 10, b % 10);
        assert(da.drop_last() =~= spec_decimal_digits(a / 10));
        assert(db.drop_last() =~= spec_decimal_digits(b / 10));
        lemma_decimal_digits_injective(a / 10, b / 10);
    }
}

/// Law: epoch scoping separates topics. The same kind published in two
/// different epochs lands on two different topics.
pub proof fn lemma_epoch_scoping(k: TxInfoNodeStreamTopic, e1: u64, e2: u64)
    requires
        e1 != e2,
    ensures
        spec_topic_for_epoch(k, e1) != spec_topic_for_epoch(k, e2),
{
    let d1 = spec_decimal_digits(e1);
    let d2 = spec_decimal_digits(e2);
    let n = spec_topic_name(k);
    let t1 = spec_topic_for_epoch(k, e1);
    let t2 = spec_topic_for_epoch(k, e2);
    lemma_decimal_digits_shape(e1);
    lemma_decimal_digits_shape(e2);
    if t1 == t2 {
        if d1.len() == d2.len() {
            assert forall|i: int| 0 <= i < d1.len() implies d1[i] == d2[i] by {
                assert(t1[i] == d1[i]);
                assert(t2[i] == d2[i]);
            }
            assert(d1 =~= d2);
            lemma_decimal_digits_injective(e1, e2);
        } else if d1.len() < d2.len() {
            let i = d1.len() as int;
            assert(t1[i] == '-');
            assert(t2[i] == d2[i]);
            assert(is_decimal_char(d2[i]));
        } else {
            let i = d2.len() as int;
            assert(t2[i] == '-');
            assert(t1[i] == d1[i]);
            assert(is_decimal_char(d1[i]));
        }
    }
}

} // verus!
