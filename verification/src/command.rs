//! Slash commands as plain data: the kinds of options a command declares,
//! the options a user filled in, and how the check-in command reads its
//! arguments.

use crate::stats::StreakBasis;
use vstd::prelude::*;
use vstd::string::*;

verus! {

/// The kind of an option in the declaration of a command.
#[derive(Clone, Copy, Debug, PartialEq, Eq, Structural)]
pub enum ApplicationCommandOptionType {
    SubCommand,
    SubCommandGroup,
    String,
    Integer,
    Boolean,
    User,
    Channel,
    Role,
    Mentionable,
    Number,
}

impl ApplicationCommandOptionType {
    /// The number that stands for the kind on the wire.
    pub open spec fn spec_code(self) -> u8 {
        match self {
            ApplicationCommandOptionType::SubCommand => 1,
            ApplicationCommandOptionType::SubCommandGroup => 2,
            ApplicationCommandOptionType::String => 3,
            ApplicationCommandOptionType::Integer => 4,
            ApplicationCommandOptionType::Boolean => 5,
            ApplicationCommandOptionType::User => 6,
            ApplicationCommandOptionType::Channel => 7,
            ApplicationCommandOptionType::Role => 8,
            ApplicationCommandOptionType::Mentionable => 9,
            ApplicationCommandOptionType::Number => 10,
        }
    }

    /// The number that stands for the kind on the wire.
    pub fn code(self) -> (code: u8)
        ensures
            code == self.spec_code(),
            1 <= code <= 10,
    {
        match self {
            ApplicationCommandOptionType::SubCommand => 1,
            ApplicationCommandOptionType::SubCommandGroup => 2,
            ApplicationCommandOptionType::String => 3,
            ApplicationCommandOptionType::Integer => 4,
            ApplicationCommandOptionType::Boolean => 5,
            ApplicationCommandOptionType::User => 6,
            ApplicationCommandOptionType::Channel => 7,
            ApplicationCommandOptionType::Role => 8,
            ApplicationCommandOptionType::Mentionable => 9,
            ApplicationCommandOptionType::Number => 10,
        }
    }

    /// The kind that a number stands for on the wire, `None` for the numbers
    /// that stand for none.
    pub fn from_code(code: u8) -> (kind: Option<ApplicationCommandOptionType>)
        ensures
            kind is Some <==> 1 <= code <= 10,
            kind matches Some(k) ==> k.spec_code() == code,
    {
        match code {
            1 => Some(ApplicationCommandOptionType::SubCommand),
            2 => Some(ApplicationCommandOptionType::SubCommandGroup),
            3 => Some(ApplicationCommandOptionType::String),
            4 => Some(ApplicationCommandOptionType::Integer),
            5 => Some(ApplicationCommandOptionType::Boolean),
            6 => Some(ApplicationCommandOptionType::User),
            7 => Some(ApplicationCommandOptionType::Channel),
            8 => Some(ApplicationCommandOptionType::Role),
            9 => Some(ApplicationCommandOptionType::Mentionable),
            10 => Some(ApplicationCommandOptionType::Number),
            _ => None,
        }
    }

    /// Whether the kind is the one that `code` stands for on the wire.
    pub fn has_code(self, code: u8) -> (same: bool)
        ensures
            same == (self.spec_code() == code),
    {
        self.code() == code
    }
}

/// The value a user gave an option.
#[derive(Clone, Debug, PartialEq, Eq)]
pub enum OptionValue {
    /// A text.
    Text(String),
    /// A whole number.
    Integer(i128),
    /// Anything else: a truth value, a fraction, a list.
    Other,
}

/// Reading the value of an option as a text or as a whole number.
pub trait CommandDataOptionHelper {
    /// The value as a text, if it is one.
    spec fn spec_as_str(&self) -> Option<Seq<char>>;

    /// The value as a whole number, if it is one.
    spec fn spec_as_integer(&self) -> Option<int>;

    /// The value as a text, if it is one.
    fn as_str(&self) -> (text: Option<&str>)
        ensures
            text is Some <==> self.spec_as_str() is Some,
            text matches Some(t) ==> self.spec_as_str() == Some(t@),
    ;

    /// The value as a number without sign, if it is a whole number that is
    /// not negative and a value of `u64`.
    fn as_u64(&self) -> (number: Option<u64>)
        ensures
            number is Some <==> (self.spec_as_integer() matches Some(n) && 0 <= n <= u64::MAX),
            number matches Some(n) ==> self.spec_as_integer() == Some(n as int),
    ;

    /// The value as a number with sign, if it is a whole number and a value
    /// of `i64`.
    fn as_i64(&self) -> (number: Option<i64>)
        ensures
            number is Some <==> (self.spec_as_integer() matches Some(n) && i64::MIN <= n
                <= i64::MAX),
            number matches Some(n) ==> self.spec_as_integer() == Some(n as int),
    ;
}

impl CommandDataOptionHelper for OptionValue {
    open spec fn spec_as_str(&self) -> Option<Seq<char>> {
        match self {
            OptionValue::Text(text) => Some(text@),
            _ => None,
        }
    }

    open spec fn spec_as_integer(&self) -> Option<int> {
        match self {
            OptionValue::Integer(n) => Some(*n as int),
            _ => None,
        }
    }

    fn as_str(&self) -> (text: Option<&str>) {
        match self {
            OptionValue::Text(text) => Some(text.as_str()),
            _ => None,
        }
    }

    fn as_u64(&self) -> (number: Option<u64>) {
        match self {
            OptionValue::Integer(n) => if 0 <= *n && *n <= u64::MAX as i128 {
                Some(*n as u64)
            } else {
                None
            },
            _ => None,
        }
    }

    fn as_i64(&self) -> (number: Option<i64>) {
        match self {
            OptionValue::Integer(n) => if i64::MIN as i128 <= *n && *n <= i64::MAX as i128 {
                Some(*n as i64)
            } else {
                None
            },
            _ => None,
        }
    }
}

impl<T: CommandDataOptionHelper> CommandDataOptionHelper for Option<&T> {
    open spec fn spec_as_str(&self) -> Option<Seq<char>> {
        match self {
            Some(inner) => inner.spec_as_str(),
            None => None,
        }
    }

    open spec fn spec_as_integer(&self) -> Option<int> {
        match self {
            Some(inner) => inner.spec_as_integer(),
            None => None,
        }
    }

    fn as_str(&self) -> (text: Option<&str>) {
        match self {
            Some(inner) => inner.as_str(),
            None => None,
        }
    }

    fn as_u64(&self) -> (number: Option<u64>) {
        match self {
            Some(inner) => inner.as_u64(),
            None => None,
        }
    }

    fn as_i64(&self) -> (number: Option<i64>) {
        match self {
            Some(inner) => inner.as_i64(),
            None => None,
        }
    }
}

/// What the check-in command can be asked for.
#[derive(Clone, Copy, Debug, PartialEq, Eq, Structural)]
pub enum Subcommand {
    /// The counts of a year.
    Year,
    /// The ranking of the streaks.
    Streaks,
    /// The detail of one participant.
    User,
    /// The ranking of the counts.
    Total,
}

impl Subcommand {
    /// The subcommand of a name, `None` for every name but the four.
    pub open spec fn spec_from_name(name: Seq<char>) -> Option<Subcommand> {
        if name == "year"@ {
            Some(Subcommand::Year)
        } else if name == "streaks"@ {
            Some(Subcommand::Streaks)
        } else if name == "user"@ {
            Some(Subcommand::User)
        } else if name == "total"@ {
            Some(Subcommand::Total)
        } else {
            None
        }
    }

    /// The subcommand that `name` stands for.
    pub fn from_name(name: &str) -> (subcommand: Option<Subcommand>)
        ensures
            subcommand == Subcommand::spec_from_name(name@),
    {
        let name = String::from_str(name);
        if name == String::from_str("year") {
            Some(Subcommand::Year)
        } else if name == String::from_str("streaks") {
            Some(Subcommand::Streaks)
        } else if name == String::from_str("user") {
            Some(Subcommand::User)
        } else if name == String::from_str("total") {
            Some(Subcommand::Total)
        } else {
            None
        }
    }
}

impl StreakBasis {
    /// The basis of a name, `None` for every name but the two.
    pub open spec fn spec_from_name(name: Seq<char>) -> Option<StreakBasis> {
        if name == "current"@ {
            Some(StreakBasis::Current)
        } else if name == "longest"@ {
            Some(StreakBasis::Longest)
        } else {
            None
        }
    }

    /// The basis that `name` stands for.
    pub fn from_name(name: &str) -> (basis: Option<StreakBasis>)
        ensures
            basis == StreakBasis::spec_from_name(name@),
    {
        let name = String::from_str(name);
        if name == String::from_str("current") {
            Some(StreakBasis::Current)
        } else if name == String::from_str("longest") {
            Some(StreakBasis::Longest)
        } else {
            None
        }
    }
}

/// Whether the character is one of the ten digits.
pub open spec fn is_digit(c: char) -> bool {
    '0' <= c <= '9'
}

/// The number that a sequence of digits writes in base ten.
pub open spec fn spec_digits_value(digits: Seq<char>) -> nat
    decreases digits.len(),
{
    if digits.len() == 0 {
        0
    } else {
        spec_digits_value(digits.drop_last()) * 10 + (digits.last() as u32 - '0' as u32) as nat
    }
}

/// The number that a text writes in base ten: the text is made of digits,
/// one at least, and the number is a value of `u64`.
pub open spec fn spec_parse_decimal(text: Seq<char>) -> Option<u64> {
    if text.len() > 0 && (forall|i: int| 0 <= i < text.len() ==> is_digit(#[trigger] text[i]))
        && spec_digits_value(text) <= u64::MAX {
        Some(spec_digits_value(text) as u64)
    } else {
        None
    }
}

/// More digits never write a smaller number.
pub proof fn lemma_digits_grow(digits: Seq<char>, k: int)
    requires
        0 <= k <= digits.len(),
        forall|i: int| 0 <= i < digits.len() ==> is_digit(#[trigger] digits[i]),
    ensures
        spec_digits_value(digits.take(k)) <= spec_digits_value(digits),
    decreases digits.len() - k,
{
    if k == digits.len() {
        assert(digits.take(k) =~= digits);
    } else {
        lemma_digits_grow(digits, k + 1);
        assert(digits.take(k + 1).drop_last() =~= digits.take(k));
        assert(is_digit(digits[k]));
        assert(digits.take(k + 1).last() == digits[k]);
    }
}

/// The number that `text` writes in base ten.
pub fn parse_decimal(text: &str) -> (number: Option<u64>)
    ensures
        number == spec_parse_decimal(text@),
{
    let len = text.unicode_len();
    if len == 0 {
        return None;
    }
    let mut value: u64 = 0;
    let mut i: usize = 0;
    while i < len
        invariant
            i <= len,
            len == text@.len(),
            forall|k: int| 0 <= k < i ==> is_digit(#[trigger] text@[k]),
            value == spec_digits_value(text@.take(i as int)),
        decreases len - i,
    {
        let c = text.get_char(i);
        if !('0' <= c && c <= '9') {
            assert(!is_digit(text@[i as int]));
            return None;
        }
        let digit: u64 = (c as u32 - '0' as u32) as u64;
        proof {
            assert(text@.take(i as int + 1).drop_last() =~= text@.take(i as int));
            assert(text@.take(i as int + 1).last() == c);
        }
        let next = match value.checked_mul(10) {
            Some(tens) => tens.checked_add(digit),
            None => None,
        };
        match next {
            Some(next) => {
                value = next;
            },
            None => {
                proof {
                    if forall|k: int| 0 <= k < text@.len() ==> is_digit(#[trigger] text@[k]) {
                        lemma_digits_grow(text@, i as int + 1);
                    }
                }
                return None;
            },
        }
        i += 1;
    }
    assert(text@.take(len as int) =~= text@);
    Some(value)
}

/// The year that the command asks the counts of: the value of its option,
/// where that is a whole number from 0 up to the greatest value of `i32`.
/// `None` stands for the present year.
pub fn year_argument<T: CommandDataOptionHelper>(option: Option<&T>) -> (year: Option<i32>)
    ensures
        year is Some <==> (option.spec_as_integer() matches Some(n) && 0 <= n <= i32::MAX),
        year matches Some(y) ==> option.spec_as_integer() == Some(y as int),
{
    match option.as_u64() {
        Some(value) => if value <= i32::MAX as u64 {
            Some(value as i32)
        } else {
            None
        },
        None => None,
    }
}

/// The basis that the command asks the ranking of the streaks by: the value
/// of its option, where that is the name of a basis.
pub fn basis_argument<T: CommandDataOptionHelper>(option: Option<&T>) -> (basis: Option<
    StreakBasis,
>)
    ensures
        basis == (match option.spec_as_str() {
            Some(name) => StreakBasis::spec_from_name(name),
            None => None,
        }),
{
    match option.as_str() {
        Some(name) => StreakBasis::from_name(name),
        None => None,
    }
}

/// The actor that the command asks the detail of: the one whose identity the
/// option writes in base ten or, without an option, the one who gave the
/// command. `None` where the option is there and writes no identity.
pub fn user_argument<T: CommandDataOptionHelper>(option: Option<&T>, invoker: u64) -> (actor:
    Option<u64>)
    ensures
        actor == (match option {
            None => Some(invoker),
            Some(given) => match given.spec_as_str() {
                Some(text) => spec_parse_decimal(text),
                None => None,
            },
        }),
{
    match option {
        None => Some(invoker),
        Some(given) => match given.as_str() {
            Some(text) => parse_decimal(text),
            None => None,
        },
    }
}

/// An option of a command as a user filled it in.
#[derive(Debug, PartialEq, Eq)]
pub struct CommandDataOption {
    /// The name of the option.
    pub name: String,
    /// The value the user gave, if the option takes one.
    pub value: Option<OptionValue>,
    /// The options below this one, if it is a subcommand or a group.
    pub options: Vec<CommandDataOption>,
}

impl CommandDataOptionHelper for CommandDataOption {
    open spec fn spec_as_str(&self) -> Option<Seq<char>> {
        match self.value {
            Some(value) => value.spec_as_str(),
            None => None,
        }
    }

    open spec fn spec_as_integer(&self) -> Option<int> {
        match self.value {
            Some(value) => value.spec_as_integer(),
            None => None,
        }
    }

    fn as_str(&self) -> (text: Option<&str>) {
        match &self.value {
            Some(value) => value.as_str(),
            None => None,
        }
    }

    fn as_u64(&self) -> (number: Option<u64>) {
        match &self.value {
            Some(value) => value.as_u64(),
            None => None,
        }
    }

    fn as_i64(&self) -> (number: Option<i64>) {
        match &self.value {
            Some(value) => value.as_i64(),
            None => None,
        }
    }
}

/// The first place at which `name` stands among the first `n` of `names`,
/// `None` where it does not stand there.
pub open spec fn spec_position(names: Seq<Seq<char>>, name: Seq<char>, n: int) -> Option<int>
    decreases n,
{
    if n <= 0 {
        None
    } else {
        match spec_position(names, name, n - 1) {
            Some(at) => Some(at),
            None => if names[n - 1] == name {
                Some(n - 1)
            } else {
                None
            },
        }
    }
}

/// The last of the first `n` options whose name stands first at `place`
/// among `names`, `None` where there is no such option.
pub open spec fn spec_slot(
    options: Seq<CommandDataOption>,
    names: Seq<Seq<char>>,
    place: int,
    n: int,
) -> Option<CommandDataOption>
    decreases n,
{
    if n <= 0 {
        None
    } else if spec_position(names, options[n - 1].name@, names.len() as int) == Some(place) {
        Some(options[n - 1])
    } else {
        spec_slot(options, names, place, n - 1)
    }
}

/// The names as the contracts see them.
pub open spec fn name_views(names: Seq<&str>) -> Seq<Seq<char>> {
    names.map_values(|name: &str| name@)
}

/// The first place at which `name` stands among `names`.
pub fn position(names: &[&str], name: &String) -> (place: Option<usize>)
    ensures
        match place {
            Some(at) => spec_position(name_views(names@), name@, names@.len() as int) == Some(
                at as int,
            ) && at < names@.len(),
            None => spec_position(name_views(names@), name@, names@.len() as int) is None,
        },
{
    let mut i: usize = 0;
    while i < names.len()
        invariant
            i <= names.len(),
            spec_position(name_views(names@), name@, i as int) is None,
        decreases names.len() - i,
    {
        let candidate = String::from_str(names[i]);
        if candidate == *name {
            proof {
                lemma_position_stays(name_views(names@), name@, i as int + 1, names@.len() as int);
            }
            return Some(i);
        }
        i += 1;
    }
    None
}

/// A name that stands among the first names stands at the same place among
/// more of them.
pub proof fn lemma_position_stays(names: Seq<Seq<char>>, name: Seq<char>, n: int, more: int)
    requires
        0 <= n <= more,
        spec_position(names, name, n) is Some,
    ensures
        spec_position(names, name, more) == spec_position(names, name, n),
    decreases more - n,
{
    if n < more {
        lemma_position_stays(names, name, n, more - 1);
    }
}

/// Picking options by name.
pub trait CommandHelper {
    /// The options to pick from.
    spec fn spec_options(&self) -> Seq<CommandDataOption>;

    /// For each of `names`, in their order, the option of that name, `None`
    /// where there is none. Of options of one name the last is picked, and of
    /// the places of one name only the first is filled.
    fn get_options<'a>(&'a self, names: &[&str]) -> (picked: Vec<Option<&'a CommandDataOption>>)
        ensures
            picked@.len() == names@.len(),
            forall|place: int|
                0 <= place < names@.len() ==> (match #[trigger] picked@[place] {
                    Some(option) => spec_slot(
                        self.spec_options(),
                        name_views(names@),
                        place,
                        self.spec_options().len() as int,
                    ) == Some(*option),
                    None => spec_slot(
                        self.spec_options(),
                        name_views(names@),
                        place,
                        self.spec_options().len() as int,
                    ) is None,
                }),
    ;
}

impl CommandHelper for Vec<CommandDataOption> {
    open spec fn spec_options(&self) -> Seq<CommandDataOption> {
        self@
    }

    fn get_options<'a>(&'a self, names: &[&str]) -> (picked: Vec<Option<&'a CommandDataOption>>) {
        let mut picked: Vec<Option<&'a CommandDataOption>> = Vec::new();
        let mut k: usize = 0;
        while k < names.len()
            invariant
                k <= names.len(),
                picked@.len() == k,
                forall|place: int| 0 <= place < k ==> (#[trigger] picked@[place]) is None,
            decreases names.len() - k,
        {
            picked.push(None);
            k += 1;
        }
        let mut i: usize = 0;
        while i < self.len()
            invariant
                i <= self.len(),
                picked@.len() == names@.len(),
                forall|place: int|
                    0 <= place < names@.len() ==> (match #[trigger] picked@[place] {
                        Some(option) => spec_slot(self@, name_views(names@), place, i as int)
                            == Some(*option),
                        None => spec_slot(self@, name_views(names@), place, i as int) is None,
                    }),
            decreases self.len() - i,
        {
            let option = &self[i];
            match position(names, &option.name) {
                Some(at) => {
                    picked.set(at, Some(option));
                },
                None => {},
            }
            i += 1;
        }
        picked
    }
}

impl CommandHelper for CommandDataOption {
    open spec fn spec_options(&self) -> Seq<CommandDataOption> {
        self.options@
    }

    fn get_options<'a>(&'a self, names: &[&str]) -> (picked: Vec<Option<&'a CommandDataOption>>) {
        self.options.get_options(names)
    }
}

} // verus!
