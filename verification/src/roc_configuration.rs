use vstd::prelude::*;
use vstd::string::StringExecFns;

verus! {

/// The four ways the Roc compiler can be built: with or without Perceus
/// reference counting, and with or without drop specialisation.
#[derive(Debug, Clone, Copy, PartialEq, Eq, Structural)]
pub enum RocConfiguration {
    Beans,
    BeansSpecialisation,
    Perceus,
    PerceusSpecialisation,
}

/// The `RUSTFLAGS` that select a configuration when the compiler is built.
pub open spec fn spec_flags(configuration: RocConfiguration) -> Seq<char> {
    match configuration {
        RocConfiguration::Beans => ""@,
        RocConfiguration::BeansSpecialisation => "--cfg DROP_SPECIALIZE"@,
        RocConfiguration::Perceus => "--cfg PERCEUS_RC"@,
        RocConfiguration::PerceusSpecialisation => "--cfg PERCEUS_RC --cfg DROP_SPECIALIZE"@,
    }
}

/// Whether a configuration uses Perceus reference counting.
pub open spec fn uses_perceus(configuration: RocConfiguration) -> bool {
    configuration is Perceus || configuration is PerceusSpecialisation
}

/// Whether a configuration specialises drops.
pub open spec fn specialises_drops(configuration: RocConfiguration) -> bool {
    configuration is BeansSpecialisation || configuration is PerceusSpecialisation
}

/// The option that builds the compiler with Perceus reference counting.
pub open spec fn perceus_option() -> Seq<char> {
    "--cfg PERCEUS_RC"@
}

/// The option that builds the compiler with drop specialisation.
pub open spec fn drop_specialisation_option() -> Seq<char> {
    "--cfg DROP_SPECIALIZE"@
}

/// The flags of a configuration are made of its features: the Perceus
/// option exactly when it uses Perceus, then the drop-specialisation option
/// exactly when it specialises drops, separated by a space when both are
/// there.
pub proof fn lemma_flags_select_features(configuration: RocConfiguration)
    ensures
        spec_flags(configuration) == (if uses_perceus(configuration) {
            perceus_option()
        } else {
            Seq::empty()
        }) + (if uses_perceus(configuration) && specialises_drops(configuration) {
            seq![' ']
        } else {
            Seq::empty()
        }) + (if specialises_drops(configuration) {
            drop_specialisation_option()
        } else {
            Seq::empty()
        }),
{
    reveal_strlit("");
    reveal_strlit("--cfg DROP_SPECIALIZE");
    reveal_strlit("--cfg PERCEUS_RC");
    reveal_strlit("--cfg PERCEUS_RC --cfg DROP_SPECIALIZE");
    let p = perceus_option();
    let d = drop_specialisation_option();
    assert(""@ =~= Seq::<char>::empty());
    assert(Seq::<char>::empty() + Seq::<char>::empty() + d =~= d);
    assert(p + Seq::<char>::empty() + Seq::<char>::empty() =~= p);
    assert("--cfg PERCEUS_RC --cfg DROP_SPECIALIZE"@ =~= p + seq![' '] + d);
}

impl RocConfiguration {
    /// The compiler flags of this configuration.
    pub fn flags(&self) -> (flags: String)
        ensures
            flags@ == spec_flags(*self),
    {
        match self {
            RocConfiguration::Beans => String::from_str(""),
            RocConfiguration::BeansSpecialisation => String::from_str("--cfg DROP_SPECIALIZE"),
            RocConfiguration::Perceus => String::from_str("--cfg PERCEUS_RC"),
            RocConfiguration::PerceusSpecialisation => {
                String::from_str("--cfg PERCEUS_RC --cfg DROP_SPECIALIZE")
            },
        }
    }
}

} // verus!
