//! Reading command payloads.
//!
//! Incoming interactions arrive as named, resolved option lists and as rows
//! of input components.  These helpers pull one named datum out of such a
//! payload, with the payload's shape modelled by the library's own types:
//! the numeric identities and strings that the rules here actually read.

use crate::text::str_eq;
use vstd::prelude::*;

verus! {

/// Why a datum could not be read from a payload.
#[derive(Clone, Copy, Debug, PartialEq, Eq, Structural)]
pub enum CommandError {
    /// No entry with the requested name exists.
    MissingData,
    /// The entry with the requested name holds another kind of value.
    InvalidType,
}

/// A resolved option's value, reduced to the plain values read here: users
/// are their numeric identity, with the member identity when the command was
/// used in a guild.
pub enum ResolvedValue {
    Boolean(bool),
    Integer(i64),
    Text(String),
    User(u64, Option<u64>),
    Other,
}

/// One named, resolved option of a command payload.
pub struct ResolvedOption {
    pub name: String,
    pub value: ResolvedValue,
}

/// The position of the first option with the given name, or the length when
/// none has it.
pub open spec fn first_named(options: Seq<ResolvedOption>, name: Seq<char>) -> int
    decreases options.len(),
{
    if options.len() == 0 {
        0
    } else if options[0].name@ == name {
        0
    } else {
        1 + first_named(options.drop_first(), name)
    }
}

/// If nothing before `k` bears the name and `k` is at the end or at it, the
/// first occurrence is exactly `k`.
proof fn lemma_first_named_at(options: Seq<ResolvedOption>, name: Seq<char>, k: int)
    requires
        0 <= k <= options.len(),
        forall|j: int| 0 <= j < k ==> (#[trigger] options[j]).name@ != name,
        k == options.len() || options[k].name@ == name,
    ensures
        first_named(options, name) == k,
    decreases k,
{
    if options.len() == 0 {
    } else if k == 0 {
    } else {
        lemma_first_named_at(options.drop_first(), name, k - 1);
    }
}

/// The user datum under `name`: the user's identity and, in a guild, the
/// member's.  `MissingData` when no option bears the name; `InvalidType`
/// when the first one that does holds something else.
pub fn get_user(options: &Vec<ResolvedOption>, name: &str) -> (r: Result<
    (u64, Option<u64>),
    CommandError,
>)
    ensures
        ({
            let k = first_named(options@, name@);
            match r {
                Ok((user, member)) => k < options@.len() && options@[k].value == (
                ResolvedValue::User(user, member)),
                Err(e) => (e == CommandError::MissingData && k == options@.len()) || (e
                    == CommandError::InvalidType && k < options@.len() && !(options@[k].value
                    is User)),
            }
        }),
{
    let n = options.len();
    let mut i: usize = 0;
    while i < n
        invariant
            0 <= i <= n,
            n == options@.len(),
            forall|j: int| 0 <= j < i ==> (#[trigger] options@[j]).name@ != name@,
        decreases n - i,
    {
        if str_eq(options[i].name.as_str(), name) {
            proof {
                lemma_first_named_at(options@, name@, i as int);
            }
            return match &options[i].value {
                ResolvedValue::User(user, member) => Ok((*user, *member)),
                _ => Err(CommandError::InvalidType),
            };
        }
        i = i + 1;
    }
    proof {
        lemma_first_named_at(options@, name@, n as int);
    }
    Err(CommandError::MissingData)
}

/// One text-input component: its identifier and the text entered.
pub struct InputText {
    pub custom_id: String,
    pub value: String,
}

/// One component of an action row, reduced to what is read here.
pub enum RowComponent {
    InputText(InputText),
    Other,
}

/// One row of components in a submitted payload.
pub struct ActionRow {
    pub components: Vec<RowComponent>,
}

/// The text a row yields for `name`: the value of its first component, when
/// that is a text input with the requested identifier and non-empty text.
pub open spec fn row_text(row: ActionRow, name: Seq<char>) -> Option<Seq<char>> {
    if row.components@.len() > 0 && row.components@[0] is InputText && row.components@[
        0
    ]->InputText_0.custom_id@ == name && row.components@[0]->InputText_0.value@.len() > 0 {
        Some(row.components@[0]->InputText_0.value@)
    } else {
        None
    }
}

/// The text entered under `name`: the first row that yields it.
/// `MissingData` when no row does.
pub fn get_input_text<'c>(options: &'c Vec<ActionRow>, name: &str) -> (r: Result<
    &'c String,
    CommandError,
>)
    ensures
        match r {
            Ok(text) => exists|k: int|
                0 <= k < options@.len() && row_text(#[trigger] options@[k], name@) == Some(text@)
                    && forall|j: int| 0 <= j < k ==> row_text(#[trigger] options@[j], name@)
                    is None,
            Err(e) => e == CommandError::MissingData && forall|j: int|
                0 <= j < options@.len() ==> row_text(#[trigger] options@[j], name@) is None,
        },
{
    let n = options.len();
    let mut i: usize = 0;
    while i < n
        invariant
            0 <= i <= n,
            n == options@.len(),
            forall|j: int| 0 <= j < i ==> row_text(#[trigger] options@[j], name@) is None,
        decreases n - i,
    {
        let row = &options[i];
        if row.components.len() > 0 {
            match &row.components[0] {
                RowComponent::InputText(input) => {
                    if str_eq(input.custom_id.as_str(), name) && !input.value.as_str().is_empty() {
                        return Ok(&input.value);
                    }
                },
                RowComponent::Other => {},
            }
        }
        i = i + 1;
    }
    Err(CommandError::MissingData)
}

} // verus!
