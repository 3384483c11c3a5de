//! Version limits for one package and their combination.

use std::cmp::Ordering;

use vstd::prelude::*;

use crate::dependency::relation::{ConstraintModel, VersionConstraint, VersionOperator};
use crate::dependency::version::{
    compare_debian_versions, version_order, version_order_is_antisymmetric,
    version_order_is_transitive,
};
use crate::text::equal;

verus! {

/// The limit admits only versions from some version on.
pub open spec fn is_lower_limit(operator: VersionOperator) -> bool {
    operator == VersionOperator::GreaterOrEqual || operator == VersionOperator::GreaterThan
}

/// The limit admits only versions up to some version.
pub open spec fn is_upper_limit(operator: VersionOperator) -> bool {
    operator == VersionOperator::LessOrEqual || operator == VersionOperator::LessThan
}

/// What becomes of two different limits for one package.
pub enum Combination {
    KeepFirst,
    TakeSecond,
    Incompatible,
}

/// The choice between a limit and another one that follows it.
pub open spec fn combination(first: ConstraintModel, second: ConstraintModel) -> Combination {
    let order = version_order(first.version, second.version);
    let replace = if first.operator == VersionOperator::Equal {
        false
    } else if second.operator == VersionOperator::Equal {
        true
    } else if is_lower_limit(first.operator) {
        order == Ordering::Less || order == Ordering::Equal && second.operator
            == VersionOperator::GreaterThan
    } else {
        order == Ordering::Greater || order == Ordering::Equal && second.operator
            == VersionOperator::LessThan
    };
    if first.operator != VersionOperator::Equal && second.operator != VersionOperator::Equal
        && is_lower_limit(first.operator) != is_lower_limit(second.operator) {
        Combination::Incompatible
    } else if replace {
        Combination::TakeSecond
    } else {
        Combination::KeepFirst
    }
}

/// A limit as it stands in an Arch dependency.
pub open spec fn limit_text(limit: ConstraintModel) -> Seq<char> {
    limit.operator.arch_operator() + limit.version
}

/// The message for two limits that exclude a combination.
pub open spec fn incompatible_limits(first: ConstraintModel, second: ConstraintModel) -> Seq<char> {
    "could not combine incompatible version limits '"@ + limit_text(first) + "' and '"@
        + limit_text(second) + "'; kept the first limit"@
}

/// The limit for a package after another relation to it, and a warning when
/// the two limits cannot be combined.
pub open spec fn merged_limit(
    current: Option<ConstraintModel>,
    incoming: Option<ConstraintModel>,
) -> (Option<ConstraintModel>, Option<Seq<char>>) {
    match (current, incoming) {
        (_, None) => (current, None),
        (None, Some(_)) => (incoming, None),
        (Some(first), Some(second)) => if first == second {
            (current, None)
        } else {
            match combination(first, second) {
                Combination::KeepFirst => (current, None),
                Combination::TakeSecond => (incoming, None),
                Combination::Incompatible => (current, Some(incompatible_limits(first, second))),
            }
        },
    }
}

/// Write a limit as it stands in an Arch dependency.
pub fn write_limit(limit: &VersionConstraint) -> (result: String)
    ensures
        result@ == limit_text(limit.deep_view()),
{
    String::from_str(limit.operator.arch_text()).concat(limit.version.as_str())
}

fn combine(first: &VersionConstraint, second: &VersionConstraint) -> (result: Combination)
    ensures
        result == combination(first.deep_view(), second.deep_view()),
{
    if first.operator == VersionOperator::Equal {
        return Combination::KeepFirst;
    }
    if second.operator == VersionOperator::Equal {
        return Combination::TakeSecond;
    }
    let first_is_lower = first.operator == VersionOperator::GreaterOrEqual || first.operator
        == VersionOperator::GreaterThan;
    let second_is_lower = second.operator == VersionOperator::GreaterOrEqual || second.operator
        == VersionOperator::GreaterThan;
    if first_is_lower != second_is_lower {
        return Combination::Incompatible;
    }
    let replace = match compare_debian_versions(first.version.as_str(), second.version.as_str()) {
        Ordering::Less => first_is_lower,
        Ordering::Greater => !first_is_lower,
        Ordering::Equal => if first_is_lower {
            second.operator == VersionOperator::GreaterThan
        } else {
            second.operator == VersionOperator::LessThan
        },
    };
    if replace {
        Combination::TakeSecond
    } else {
        Combination::KeepFirst
    }
}

/// Merge the limit of another relation into the limit of a package.
pub fn merge_constraints(
    current: &mut Option<VersionConstraint>,
    incoming: Option<VersionConstraint>,
) -> (result: Option<String>)
    ensures
        (final(current).deep_view(), result.deep_view()) == merged_limit(
            old(current).deep_view(),
            incoming.deep_view(),
        ),
{
    let second = match incoming {
        None => {
            return None;
        },
        Some(second) => second,
    };
    let choice = match current.as_ref() {
        None => Combination::TakeSecond,
        Some(first) => {
            if first.operator == second.operator && equal(
                first.version.as_str(),
                second.version.as_str(),
            ) {
                return None;
            }
            match combine(first, &second) {
                Combination::Incompatible => {
                    let warning = String::from_str(
                        "could not combine incompatible version limits '",
                    ).concat(write_limit(first).as_str()).concat("' and '").concat(
                        write_limit(&second).as_str(),
                    ).concat("'; kept the first limit");
                    return Some(warning);
                },
                choice => choice,
            }
        },
    };
    if let Combination::TakeSecond = choice {
        *current = Some(second);
    }
    None
}

// ---------------------------------------------------------------------------
// Laws
// ---------------------------------------------------------------------------
/// A version is within a limit.
pub open spec fn admits(limit: ConstraintModel, version: Seq<char>) -> bool {
    let order = version_order(version, limit.version);
    match limit.operator {
        VersionOperator::LessThan => order == Ordering::Less,
        VersionOperator::LessOrEqual => order != Ordering::Greater,
        VersionOperator::Equal => order == Ordering::Equal,
        VersionOperator::GreaterOrEqual => order != Ordering::Less,
        VersionOperator::GreaterThan => order == Ordering::Greater,
    }
}

/// Two limits of the same direction merge into the stronger one: a version is
/// within the merged limit exactly when it is within both, and there is no
/// warning.
pub proof fn merging_keeps_the_stronger_limit(
    first: ConstraintModel,
    second: ConstraintModel,
    version: Seq<char>,
)
    requires
        is_lower_limit(first.operator) && is_lower_limit(second.operator) || is_upper_limit(
            first.operator,
        ) && is_upper_limit(second.operator),
    ensures
        ({
            let (limit, warning) = merged_limit(Some(first), Some(second));
            &&& warning is None
            &&& limit matches Some(merged) && admits(merged, version) == (admits(first, version)
                && admits(second, version))
        }),
{
    version_order_is_transitive(version, first.version, second.version);
    version_order_is_transitive(version, second.version, first.version);
    version_order_is_antisymmetric(first.version, second.version);
    version_order_is_antisymmetric(version, first.version);
    version_order_is_antisymmetric(version, second.version);
}

/// An exact limit wins over any other, and the first of two exact ones.  A limit
/// stands where there is no other, and none of this is warned of.
pub proof fn exact_limits_win(first: ConstraintModel, second: ConstraintModel)
    ensures
        merged_limit(Some(first), None) == (Some(first), None::<Seq<char>>),
        merged_limit(None, Some(second)) == (Some(second), None::<Seq<char>>),
        merged_limit(None, None) == (None::<ConstraintModel>, None::<Seq<char>>),
        first.operator == VersionOperator::Equal ==> merged_limit(Some(first), Some(second)) == (
            Some(first),
            None::<Seq<char>>,
        ),
        first.operator != VersionOperator::Equal && second.operator == VersionOperator::Equal
            ==> merged_limit(Some(first), Some(second)) == (Some(second), None::<Seq<char>>),
{
}

/// Limits of opposite directions are not merged: the first one is kept, and a
/// warning says so.
pub proof fn opposite_limits_are_warned_of(first: ConstraintModel, second: ConstraintModel)
    requires
        is_lower_limit(first.operator) && is_upper_limit(second.operator) || is_upper_limit(
            first.operator,
        ) && is_lower_limit(second.operator),
    ensures
        merged_limit(Some(first), Some(second)).0 == Some(first),
        merged_limit(Some(first), Some(second)).1 == Some(incompatible_limits(first, second)),
{
}

} // verus!
