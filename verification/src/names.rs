//! The names of the registry's files.

use vstd::prelude::*;
use vstd::string::*;

use crate::paths;
use crate::protocol::RegistryError;

verus! {

/// The bytes of an ASCII text.
pub fn ascii_bytes(text: &str) -> (bytes: Vec<u8>)
    requires
        is_ascii(text),
    ensures
        bytes@ == paths::ascii(text@),
{
    broadcast use is_ascii_spec_bytes;

    let bytes = paths::copy_bytes(text.as_bytes());
    assert(bytes@ =~= paths::ascii(text@));
    bytes
}

/// A number in decimal digits.
pub open spec fn decimal(n: nat) -> Seq<u8>
    decreases n,
{
    if n < 10 {
        seq![(48 + n) as u8]
    } else {
        decimal(n / 10).push((48 + n % 10) as u8)
    }
}

/// Appends a number in decimal digits.
pub fn push_decimal(bytes: &mut Vec<u8>, n: u64)
    ensures
        final(bytes)@ == old(bytes)@ + decimal(n as nat),
    decreases n,
{
    let digit: u8 = 48 + (n % 10) as u8;
    if n >= 10 {
        push_decimal(bytes, n / 10);
    }
    bytes.push(digit);
    assert(bytes@ =~= old(bytes)@ + decimal(n as nat));
}

/// The name of the lock file.
pub open spec fn lock_name() -> Seq<u8> {
    paths::ascii("workspaces.lock"@)
}

/// The lock file of a registry in `directory`.
pub fn lock_path(directory: &[u8]) -> (path: Vec<u8>)
    ensures
        path@ == paths::joined(directory@, lock_name()),
{
    proof {
        reveal_strlit("workspaces.lock");
    }
    let name = ascii_bytes("workspaces.lock");
    paths::join(directory, name.as_slice())
}

/// The name of a temporary file: `.workspaces.tmp-`, the process, `-`, a sequence number.
pub open spec fn temporary_name(process: u32, sequence: u64) -> Seq<u8> {
    (paths::ascii(".workspaces.tmp-"@) + decimal(process as nat)).push(45) + decimal(
        sequence as nat,
    )
}

/// The temporary file that is to replace `registry`.
pub fn temporary_path(registry: &[u8], process: u32, sequence: u64) -> (path: Vec<u8>)
    ensures
        path@ == paths::renamed(registry@, temporary_name(process, sequence)),
{
    proof {
        reveal_strlit(".workspaces.tmp-");
    }
    let mut name = ascii_bytes(".workspaces.tmp-");
    push_decimal(&mut name, process as u64);
    name.push(45);
    push_decimal(&mut name, sequence);
    paths::with_file_name(registry, name.as_slice())
}

/// Where the registry is kept: below the state directory where one is set, even an empty one,
/// and otherwise below the home directory.
pub open spec fn default_path(state_home: Option<Seq<u8>>, home: Option<Seq<u8>>) -> Option<
    Seq<u8>,
> {
    match (state_home, home) {
        (Some(state), _) => Some(
            paths::joined(
                paths::joined(state, paths::ascii("open-agent-view"@)),
                paths::ascii("workspaces.json"@),
            ),
        ),
        (None, Some(home)) => Some(
            paths::joined(home, paths::ascii(".local/state/open-agent-view/workspaces.json"@)),
        ),
        (None, None) => None,
    }
}

pub open spec fn optional_view(bytes: Option<Vec<u8>>) -> Option<Seq<u8>> {
    match bytes {
        Some(bytes) => Some(bytes@),
        None => None,
    }
}

/// The path of the registry, given the values of `XDG_STATE_HOME` and `HOME`.
pub fn default_workspaces_path(state_home: Option<Vec<u8>>, home: Option<Vec<u8>>) -> (result:
    Result<Vec<u8>, RegistryError>)
    ensures
        match default_path(optional_view(state_home), optional_view(home)) {
            Some(path) => result is Ok && result->Ok_0@ == path,
            None => result == Err::<Vec<u8>, RegistryError>(RegistryError::HomeNotSet),
        },
        state_home is Some ==> result is Ok && result->Ok_0@ == state_home->0@ + separator_after(
            state_home->0@,
        ) + paths::ascii("open-agent-view/workspaces.json"@),
        state_home is None && home is Some ==> result is Ok && result->Ok_0@ == home->0@
            + separator_after(home->0@) + paths::ascii(
            ".local/state/open-agent-view/workspaces.json"@,
        ),
        state_home is None && home is None ==> result == Err::<Vec<u8>, RegistryError>(
            RegistryError::HomeNotSet,
        ),
{
    proof {
        reveal_strlit("open-agent-view");
        reveal_strlit("workspaces.json");
        reveal_strlit(".local/state/open-agent-view/workspaces.json");
        if state_home is Some {
            state_directory_holds_the_registry(
                state_home->0@,
                optional_view(home),
                optional_view(home),
            );
        } else if home is Some {
            home_directory_holds_the_registry(home->0@);
        }
    }
    if let Some(state) = state_home {
        let directory = paths::join(state.as_slice(), ascii_bytes("open-agent-view").as_slice());
        return Ok(paths::join(directory.as_slice(), ascii_bytes("workspaces.json").as_slice()));
    }
    match home {
        Some(home) => Ok(
            paths::join(
                home.as_slice(),
                ascii_bytes(".local/state/open-agent-view/workspaces.json").as_slice(),
            ),
        ),
        None => Err(RegistryError::HomeNotSet),
    }
}

proof fn decimal_is_digits(n: nat)
    ensures
        decimal(n).len() > 0,
        forall|i: int| 0 <= i < decimal(n).len() ==> 48 <= #[trigger] decimal(n)[i] <= 57,
    decreases n,
{
    if n >= 10 {
        decimal_is_digits(n / 10);
    }
}

proof fn decimal_is_injective(n: nat, m: nat)
    requires
        decimal(n) == decimal(m),
    ensures
        n == m,
    decreases n,
{
    decimal_is_digits(n);
    assert(decimal(n).last() == decimal(m).last());
    assert(decimal(n).last() == (48 + n % 10) as u8);
    assert(decimal(m).last() == (48 + m % 10) as u8);
    if n < 10 {
        assert(decimal(n).len() == 1);
        if m >= 10 {
            decimal_is_digits(m / 10);
            assert(decimal(m).len() > 1);
        }
    } else if m < 10 {
        decimal_is_digits(n / 10);
        assert(decimal(m).len() == 1);
    } else {
        assert(decimal(n).drop_last() =~= decimal(n / 10));
        assert(decimal(m).drop_last() =~= decimal(m / 10));
        decimal_is_injective(n / 10, m / 10);
    }
}

/// Two texts that agree, each of digits, a dash and more, have the same digits before the dash.
proof fn split_at_dash(a: Seq<u8>, x: Seq<u8>, b: Seq<u8>, y: Seq<u8>)
    requires
        a.push(45) + x == b.push(45) + y,
        forall|i: int| 0 <= i < a.len() ==> 48 <= #[trigger] a[i],
        forall|i: int| 0 <= i < b.len() ==> 48 <= #[trigger] b[i],
    ensures
        a == b,
        x == y,
{
    let whole = a.push(45) + x;
    assert(whole[a.len() as int] == 45);
    assert((b.push(45) + y)[b.len() as int] == 45);
    if a.len() < b.len() {
        assert(whole[a.len() as int] == b[a.len() as int]);
    }
    if b.len() < a.len() {
        assert(whole[b.len() as int] == a[b.len() as int]);
    }
    assert forall|i: int| 0 <= i < a.len() implies a[i] == b[i] by {
        assert(whole[i] == a[i]);
        assert((b.push(45) + y)[i] == b[i]);
    }
    assert(a =~= b);
    assert(whole.len() == a.len() + 1 + x.len());
    assert((b.push(45) + y).len() == b.len() + 1 + y.len());
    assert forall|i: int| 0 <= i < x.len() implies x[i] == y[i] by {
        assert(whole[a.len() + 1 + i] == x[i]);
        assert((b.push(45) + y)[b.len() + 1 + i] == y[i]);
    }
    assert(x =~= y);
}

/// The temporary files of different writes have different names.
pub proof fn temporary_names_differ(process: u32, sequence: u64, other: u32, number: u64)
    requires
        process != other || sequence != number,
    ensures
        temporary_name(process, sequence) != temporary_name(other, number),
{
    if temporary_name(process, sequence) == temporary_name(other, number) {
        let prefix = paths::ascii(".workspaces.tmp-"@);
        let a = decimal(process as nat);
        let b = decimal(other as nat);
        let x = decimal(sequence as nat);
        let y = decimal(number as nat);
        assert((prefix + a).push(45) + x =~= prefix + (a.push(45) + x));
        assert((prefix + b).push(45) + y =~= prefix + (b.push(45) + y));
        let left = prefix + (a.push(45) + x);
        let right = prefix + (b.push(45) + y);
        assert(left.skip(prefix.len() as int) =~= a.push(45) + x);
        assert(right.skip(prefix.len() as int) =~= b.push(45) + y);
        decimal_is_digits(process as nat);
        decimal_is_digits(other as nat);
        split_at_dash(a, x, b, y);
        decimal_is_injective(process as nat, other as nat);
        decimal_is_injective(sequence as nat, number as nat);
    }
}

proof fn temporary_name_is_plain(process: u32, sequence: u64)
    ensures
        paths::plain_name(temporary_name(process, sequence)),
{
    reveal_strlit(".workspaces.tmp-");
    let prefix = paths::ascii(".workspaces.tmp-"@);
    let name = temporary_name(process, sequence);
    decimal_is_digits(process as nat);
    decimal_is_digits(sequence as nat);
    assert(prefix.len() == 16);
    assert forall|i: int| 0 <= i < name.len() implies name[i] != paths::SEPARATOR by {
        let a = decimal(process as nat);
        if i < 16 {
            assert(name[i] == prefix[i]);
        } else if i < 16 + a.len() {
            assert(name[i] == a[i - 16]);
        } else if i > 16 + a.len() {
            assert(name[i] == decimal(sequence as nat)[i - 17 - a.len()]);
        }
    }
    assert(seq![paths::DOT].len() == 1);
    assert(seq![paths::DOT, paths::DOT].len() == 2);
    assert(name.len() > 2);
}

/// The temporary file stands in the directory of the registry that it is to replace, under a name
/// of its own. A registry path that ends in `..` is left out: it has no file name to replace.
pub proof fn temporary_stands_beside_registry(registry: Seq<u8>, process: u32, sequence: u64)
    requires
        paths::has_file_name(registry),
    ensures
        paths::parent_path(paths::renamed(registry, temporary_name(process, sequence)))
            == paths::parent_path(registry),
{
    temporary_name_is_plain(process, sequence);
    paths::renamed_stays_beside(registry, temporary_name(process, sequence));
}

/// The lock file stands in the directory of the registry.
pub proof fn lock_stands_beside_registry(registry: Seq<u8>)
    requires
        paths::parent_path(registry) is Some,
    ensures
        paths::parent_path(paths::joined(paths::parent_path(registry)->0, lock_name()))
            == paths::parent_path(registry),
{
    reveal_strlit("workspaces.lock");
    let name = lock_name();
    assert(name.len() == 15);
    assert forall|i: int| 0 <= i < name.len() implies name[i] != paths::SEPARATOR by {}
    assert(seq![paths::DOT].len() == 1);
    assert(seq![paths::DOT, paths::DOT].len() == 2);
    paths::sibling_has_same_parent(registry, name);
}

/// The number that decimal digits stand for.
pub open spec fn digits_value(digits: Seq<u8>) -> int
    decreases digits.len(),
{
    if digits.len() == 0 {
        0
    } else {
        digits_value(digits.drop_last()) * 10 + (digits.last() - 48)
    }
}

/// What digits stand for: each counts ten times the ones after it.
pub proof fn digits_count_in_tens(digits: Seq<u8>, digit: u8)
    ensures
        digits_value(Seq::empty()) == 0,
        digits_value(digits.push(digit)) == digits_value(digits) * 10 + (digit - 48),
{
    assert(digits.push(digit).drop_last() =~= digits);
}

/// A number is spelled by the digits that stand for it, without a zero in front.
pub proof fn decimal_stands_for_the_number(n: nat)
    ensures
        digits_value(decimal(n)) == n,
        decimal(n).len() > 0,
        forall|i: int| 0 <= i < decimal(n).len() ==> 48 <= #[trigger] decimal(n)[i] <= 57,
        decimal(n).len() > 1 ==> decimal(n)[0] != 48,
    decreases n,
{
    decimal_is_digits(n);
    if n < 10 {
        let digit = (48 + n) as u8;
        digits_count_in_tens(Seq::empty(), digit);
        assert(decimal(n) =~= Seq::<u8>::empty().push(digit));
    } else {
        decimal_stands_for_the_number(n / 10);
        let digit = (48 + n % 10) as u8;
        digits_count_in_tens(decimal(n / 10), digit);
        assert(decimal(n)[0] == decimal(n / 10)[0]);
        if decimal(n / 10).len() == 1 {
            assert(decimal(n / 10) == seq![decimal(n / 10)[0]]);
            digits_count_in_tens(Seq::empty(), decimal(n / 10)[0]);
            assert(decimal(n / 10) =~= Seq::<u8>::empty().push(decimal(n / 10)[0]));
        }
    }
}

/// The lock file is called `workspaces.lock`.
pub proof fn lock_file_has_its_name()
    ensures
        lock_name() == seq![
            119u8, 111u8, 114u8, 107u8, 115u8, 112u8, 97u8, 99u8, 101u8, 115u8, 46u8, 108u8, 111u8,
            99u8, 107u8,
        ],
{
    reveal_strlit("workspaces.lock");
    assert(lock_name() =~= seq![
        119u8, 111u8, 114u8, 107u8, 115u8, 112u8, 97u8, 99u8, 101u8, 115u8, 46u8, 108u8, 111u8,
        99u8, 107u8,
    ]);
}

/// The name of a temporary file is `.workspaces.tmp-`, the digits of the process, a dash, and the
/// digits of the sequence number.
pub proof fn temporary_file_is_named_by_its_numbers(process: u32, sequence: u64)
    ensures
        temporary_name(process, sequence) == seq![
            46u8, 119u8, 111u8, 114u8, 107u8, 115u8, 112u8, 97u8, 99u8, 101u8, 115u8, 46u8, 116u8,
            109u8, 112u8, 45u8,
        ] + decimal(process as nat) + seq![45u8] + decimal(sequence as nat),
{
    reveal_strlit(".workspaces.tmp-");
    let start = seq![
        46u8, 119u8, 111u8, 114u8, 107u8, 115u8, 112u8, 97u8, 99u8, 101u8, 115u8, 46u8, 116u8,
        109u8, 112u8, 45u8,
    ];
    assert(paths::ascii(".workspaces.tmp-"@) =~= start);
    assert(temporary_name(process, sequence) =~= start + decimal(process as nat) + seq![45u8]
        + decimal(sequence as nat));
}

/// What stands for a value that may be missing.
pub proof fn optional_views_are_faithful(bytes: Vec<u8>)
    ensures
        optional_view(Some(bytes)) == Some(bytes@),
        optional_view(None) is None,
{
}

/// The separator that a base needs before a name is placed below it.
pub open spec fn separator_after(base: Seq<u8>) -> Seq<u8> {
    if base.len() > 0 && base.last() != paths::SEPARATOR {
        seq![paths::SEPARATOR]
    } else {
        Seq::empty()
    }
}

/// A base needs a separator if it is not empty and does not end in one.
pub proof fn bases_need_at_most_one_separator(base: Seq<u8>)
    ensures
        base.len() == 0 || base[base.len() - 1] == 47 ==> separator_after(base) == Seq::<
            u8,
        >::empty(),
        base.len() > 0 && base[base.len() - 1] != 47 ==> separator_after(base) == seq![47u8],
{
}

proof fn registry_names_are_plain()
    ensures
        paths::plain_name(paths::ascii("open-agent-view"@)),
        paths::plain_name(paths::ascii("workspaces.json"@)),
        paths::plain_name(paths::ascii(".local"@)),
        paths::plain_name(paths::ascii("state"@)),
{
    reveal_strlit("open-agent-view");
    reveal_strlit("workspaces.json");
    reveal_strlit(".local");
    reveal_strlit("state");
    let a = paths::ascii("open-agent-view"@);
    let b = paths::ascii("workspaces.json"@);
    let c = paths::ascii(".local"@);
    let d = paths::ascii("state"@);
    assert(a.len() == 15 && b.len() == 15 && c.len() == 6 && d.len() == 5);
    assert forall|i: int| 0 <= i < a.len() implies a[i] != paths::SEPARATOR by {}
    assert forall|i: int| 0 <= i < b.len() implies b[i] != paths::SEPARATOR by {}
    assert forall|i: int| 0 <= i < c.len() implies c[i] != paths::SEPARATOR by {}
    assert forall|i: int| 0 <= i < d.len() implies d[i] != paths::SEPARATOR by {}
    assert(seq![paths::DOT].len() == 1);
    assert(seq![paths::DOT, paths::DOT].len() == 2);
}

/// Where a state directory is set, the registry is `open-agent-view/workspaces.json` below it,
/// whatever the home directory is.
pub proof fn state_directory_holds_the_registry(
    state: Seq<u8>,
    home: Option<Seq<u8>>,
    other: Option<Seq<u8>>,
)
    ensures
        default_path(Some(state), home) is Some,
        default_path(Some(state), home) == default_path(Some(state), other),
        paths::components(default_path(Some(state), home)->0) == paths::components(state).push(
            paths::Part::Name(paths::ascii("open-agent-view"@)),
        ).push(paths::Part::Name(paths::ascii("workspaces.json"@))),
        default_path(Some(state), home)->0 == state + separator_after(state) + paths::ascii(
            "open-agent-view/workspaces.json"@,
        ),
{
    let directory = paths::ascii("open-agent-view"@);
    let file = paths::ascii("workspaces.json"@);
    registry_names_are_plain();
    paths::join_adds_component(state, directory);
    paths::join_adds_component(paths::joined(state, directory), file);
    reveal_strlit("open-agent-view");
    reveal_strlit("workspaces.json");
    reveal_strlit("open-agent-view/workspaces.json");
    assert(paths::joined(state, directory).last() == 119u8);
    assert(paths::ascii("open-agent-view/workspaces.json"@) =~= directory.push(47) + file);
    assert(default_path(Some(state), home)->0 =~= state + separator_after(state) + paths::ascii(
        "open-agent-view/workspaces.json"@,
    ));
}

/// Where no state directory is set, the registry is
/// `.local/state/open-agent-view/workspaces.json` below the home directory; and without that there
/// is none.
pub proof fn home_directory_holds_the_registry(home: Seq<u8>)
    ensures
        default_path(None, None) is None,
        default_path(None, Some(home)) is Some,
        paths::components(default_path(None, Some(home))->0) == paths::components(home).push(
            paths::Part::Name(paths::ascii(".local"@)),
        ).push(paths::Part::Name(paths::ascii("state"@))).push(
            paths::Part::Name(paths::ascii("open-agent-view"@)),
        ).push(paths::Part::Name(paths::ascii("workspaces.json"@))),
        default_path(None, Some(home))->0 == home + separator_after(home) + paths::ascii(
            ".local/state/open-agent-view/workspaces.json"@,
        ),
{
    let local = paths::ascii(".local"@);
    let state = paths::ascii("state"@);
    let directory = paths::ascii("open-agent-view"@);
    let file = paths::ascii("workspaces.json"@);
    let whole = paths::ascii(".local/state/open-agent-view/workspaces.json"@);
    registry_names_are_plain();
    let one = paths::joined(home, local);
    let two = paths::joined(one, state);
    let three = paths::joined(two, directory);
    let four = paths::joined(three, file);
    paths::join_adds_component(home, local);
    paths::join_adds_component(one, state);
    paths::join_adds_component(two, directory);
    paths::join_adds_component(three, file);
    reveal_strlit(".local");
    reveal_strlit("state");
    reveal_strlit("open-agent-view");
    reveal_strlit("workspaces.json");
    reveal_strlit(".local/state/open-agent-view/workspaces.json");
    assert(one.last() == 108u8);
    assert(two.last() == 101u8);
    assert(three.last() == 119u8);
    assert(whole =~= local.push(47) + state.push(47) + directory.push(47) + file);
    assert(four =~= home + separator_after(home) + whole);
    assert(default_path(None, Some(home))->0 =~= home + separator_after(home) + whole);
}

} // verus!
