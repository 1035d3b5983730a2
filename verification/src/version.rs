//! Odoo versions.

use vstd::prelude::*;

verus! {

/// An Odoo version, as in `18.0`.
#[derive(Clone, Copy, Debug, PartialEq, Eq, Structural)]
pub struct OdooVersion {
    pub major: u32,
    pub minor: u32,
}

/// The decimal digit of a number below ten.
pub open spec fn digit(value: nat) -> char {
    (48 + value) as char
}

/// A number in decimal, without leading zeros.
pub open spec fn decimal(value: nat) -> Seq<char>
    decreases value,
{
    if value < 10 {
        seq![digit(value)]
    } else {
        decimal(value / 10).push(digit(value % 10))
    }
}

/// The decimal digit of a number below ten.
fn digit_text(value: u32) -> (text: &'static str)
    requires
        value < 10,
    ensures
        text@ == seq![digit(value as nat)],
{
    proof {
        reveal_strlit("0");
        reveal_strlit("1");
        reveal_strlit("2");
        reveal_strlit("3");
        reveal_strlit("4");
        reveal_strlit("5");
        reveal_strlit("6");
        reveal_strlit("7");
        reveal_strlit("8");
        reveal_strlit("9");
    }
    match value {
        0 => "0",
        1 => "1",
        2 => "2",
        3 => "3",
        4 => "4",
        5 => "5",
        6 => "6",
        7 => "7",
        8 => "8",
        _ => "9",
    }
}

/// A number in decimal, without leading zeros.
fn decimal_text(value: u32) -> (text: String)
    ensures
        text@ == decimal(value as nat),
    decreases value,
{
    if value < 10 {
        digit_text(value).to_owned()
    } else {
        let text = decimal_text(value / 10).concat(digit_text(value % 10));
        assert(text@ == decimal((value / 10) as nat).push(digit((value % 10) as nat)));
        text
    }
}

impl OdooVersion {
    /// `self` is `other` or a later version.
    pub open spec fn is_at_least(self, other: OdooVersion) -> bool {
        self.major > other.major || (self.major == other.major && self.minor >= other.minor)
    }

    /// The version as it is written: the two numbers with a dot between them.
    pub open spec fn text(self) -> Seq<char> {
        decimal(self.major as nat) + "."@ + decimal(self.minor as nat)
    }

    /// The version `major.minor`.
    pub fn new(major: u32, minor: u32) -> (version: OdooVersion)
        ensures
            version == (OdooVersion { major, minor }),
    {
        OdooVersion { major, minor }
    }

    /// Whether `self` is `other` or a later version.
    pub fn at_least(&self, other: &OdooVersion) -> (yes: bool)
        ensures
            yes == self.is_at_least(*other),
    {
        self.major > other.major || (self.major == other.major && self.minor >= other.minor)
    }

    /// The version as it is written, as in `18.0`.
    pub fn to_text(&self) -> (text: String)
        ensures
            text@ == self.text(),
    {
        decimal_text(self.major).concat(".").concat(decimal_text(self.minor).as_str())
    }
}

/// A rule scoped to the versions from `min` through `max` applies to the configured version; it
/// applies to every project that configures none.
pub open spec fn version_applies(
    configured: Option<OdooVersion>,
    min: Option<OdooVersion>,
    max: Option<OdooVersion>,
) -> bool {
    configured matches Some(version) ==> {
        &&& min matches Some(first) ==> version.is_at_least(first)
        &&& max matches Some(last) ==> last.is_at_least(version)
    }
}

/// Returns `true` if a rule scoped to Odoo versions `min..=max` (either bound optional) should
/// apply given the configured `odoo-version`.
///
/// When no `odoo-version` is configured, version-scoped rules stay enabled unconditionally, so
/// that nothing changes for users who have not opted into the setting.
pub fn odoo_version_applies(
    odoo_version: Option<OdooVersion>,
    min: Option<OdooVersion>,
    max: Option<OdooVersion>,
) -> (applies: bool)
    ensures
        applies == version_applies(odoo_version, min, max),
        odoo_version is None ==> applies,
{
    match odoo_version {
        None => true,
        Some(version) => {
            let late_enough = match min {
                Some(first) => version.at_least(&first),
                None => true,
            };
            let early_enough = match max {
                Some(last) => last.at_least(&version),
                None => true,
            };
            late_enough && early_enough
        },
    }
}

/// Versions are totally ordered: two versions are each at least the other only if they are the
/// same, one of two is always at least the other, and what is at least a later version is at
/// least an earlier one.
pub proof fn law_versions_are_ordered(a: OdooVersion, b: OdooVersion, c: OdooVersion)
    ensures
        a.is_at_least(a),
        a.is_at_least(b) || b.is_at_least(a),
        a.is_at_least(b) && b.is_at_least(a) ==> a == b,
        a.is_at_least(b) && b.is_at_least(c) ==> a.is_at_least(c),
{
}

/// A rule that applies to two versions applies to every version between them.
pub proof fn law_version_scope_is_an_interval(
    min: Option<OdooVersion>,
    max: Option<OdooVersion>,
    low: OdooVersion,
    middle: OdooVersion,
    high: OdooVersion,
)
    requires
        version_applies(Some(low), min, max),
        version_applies(Some(high), min, max),
        middle.is_at_least(low),
        high.is_at_least(middle),
    ensures
        version_applies(Some(middle), min, max),
{
}

/// The major number decides first: a version with a greater one is later whatever the minor numbers
/// are, and of two with the same one the greater minor number is the later.
pub proof fn law_major_numbers_decide_first(a: OdooVersion, b: OdooVersion)
    ensures
        a.major > b.major ==> a.is_at_least(b) && !b.is_at_least(a),
        a.major == b.major ==> (a.is_at_least(b) <==> a.minor >= b.minor),
{
}

/// A rule applies to every version from the first through the last of its scope, to none before and
/// to none behind, and to every project that configures no version.
pub proof fn law_scopes_hold_both_ends_and_all_between(
    version: OdooVersion,
    min: Option<OdooVersion>,
    max: Option<OdooVersion>,
)
    ensures
        version_applies(None, min, max),
        version_applies(Some(version), None, None),
        version_applies(Some(version), Some(version), Some(version)),
        min matches Some(first) ==> (version.major < first.major || (version.major == first.major
            && version.minor < first.minor) ==> !version_applies(Some(version), min, max)),
        max matches Some(last) ==> (last.major < version.major || (last.major == version.major
            && last.minor < version.minor) ==> !version_applies(Some(version), min, max)),
        !version_applies(Some(version), min, max) ==> {
            ||| (min matches Some(first) && (version.major < first.major || (version.major
                == first.major && version.minor < first.minor)))
            ||| (max matches Some(last) && (last.major < version.major || (last.major
                == version.major && last.minor < version.minor)))
        },
{
}

/// The number that a sequence of decimal digits stands for.
pub open spec fn number(digits: Seq<char>) -> nat
    decreases digits.len(),
{
    if digits.len() == 0 {
        0
    } else {
        (10 * number(digits.drop_last()) + (digits.last() as int - '0' as int)) as nat
    }
}

/// A number in decimal is made of digits, has no leading zero but in `0` itself, and reads back as
/// the number.
pub proof fn law_decimals_read_back(value: nat)
    ensures
        number(decimal(value)) == value,
        decimal(value).len() > 0,
        decimal(value).len() > 1 ==> decimal(value)[0] != '0',
        value > 0 ==> decimal(value)[0] != '0',
        forall|i: int| 0 <= i < decimal(value).len() ==> '0' <= #[trigger] decimal(value)[i] <= '9',
    decreases value,
{
    if value < 10 {
        let one = seq![digit(value)];
        assert(one.drop_last() == Seq::<char>::empty());
        assert(number(one.drop_last()) == 0);
    } else {
        law_decimals_read_back(value / 10);
        let head = decimal(value / 10);
        let all = head.push(digit(value % 10));
        assert(all.drop_last() == head);
        assert(all[0] == head[0]);
    }
}

/// The text of a version tells the version: it has one dot, the major number in decimal before it
/// and the minor number in decimal behind it.
pub proof fn law_texts_tell_the_version(version: OdooVersion, dot: int)
    requires
        0 <= dot < version.text().len(),
    ensures
        version.text()[dot] == '.' ==> {
            &&& number(version.text().take(dot)) == version.major
            &&& number(version.text().skip(dot + 1)) == version.minor
        },
        version.text().contains('.'),
        version.text()[dot] == '.' || '0' <= version.text()[dot] <= '9',
        version.text()[0] == '0' ==> version.major == 0,
{
    reveal_strlit(".");
    law_decimals_read_back(version.major as nat);
    law_decimals_read_back(version.minor as nat);
    let major = decimal(version.major as nat);
    let minor = decimal(version.minor as nat);
    let n = major.len() as int;
    let text = version.text();
    assert(text[n] == '.');
    assert(text.take(n) == major);
    assert(text.skip(n + 1) == minor);
    if dot < n {
        assert(text[dot] == major[dot]);
    } else if dot > n {
        assert(text[dot] == minor[dot - n - 1]);
    }
    assert(text[0] == major[0]);
}

} // verus!
