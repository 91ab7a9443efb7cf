use vstd::prelude::*;

verus! {

/// A casing convention for declared names.
#[derive(Clone, Copy, Debug, PartialEq, Eq, Structural)]
pub enum Case {
    /// `lower_snake_case`
    Snake,
    /// `PascalCase`
    Pascal,
    /// `SCREAMING_SNAKE_CASE`
    Screaming,
}

/// Which rules run, and their thresholds. Every value is tunable; `standard`
/// gives the defaults.
#[derive(Debug)]
pub struct Config {
    pub magic_numbers: bool,
    pub commented_code: bool,
    pub missing_docs: bool,
    pub naming: bool,
    pub unsafe_usage: bool,
    pub error_handling: bool,
    pub complexity: bool,
    pub duplication: bool,
    /// Numeric literals, spelt as in the source, that are never flagged.
    pub allowed_numbers: Vec<Vec<u8>>,
    pub max_statements: usize,
    pub max_params: usize,
    pub max_nesting: usize,
    pub max_complexity: usize,
    /// Functions whose body has fewer tokens are not compared for duplication.
    pub min_duplicate_tokens: usize,
    /// Percentage of matching canonical tokens from which two functions count
    /// as near duplicates.
    pub similarity_percent: usize,
    /// The markers that open a suppression directive in a comment.
    pub directive_markers: Vec<Vec<u8>>,
    pub function_case: Case,
    pub type_case: Case,
    pub constant_case: Case,
    pub variable_case: Case,
}

/// Why a configuration was refused.
#[derive(Clone, Copy, Debug, PartialEq, Eq, Structural)]
pub enum ConfigError {
    /// A threshold of zero would flag every function.
    ZeroThreshold,
    /// An allowed number is empty.
    EmptyAllowedNumber,
    /// The similarity threshold is not a percentage from 1 to 100.
    BadSimilarity,
    /// A directive marker is empty.
    EmptyMarker,
}

impl Config {
    /// Thresholds are positive and the similarity is a percentage.
    pub open spec fn spec_valid_thresholds(&self) -> bool {
        &&& self.max_statements > 0
        &&& self.max_params > 0
        &&& self.max_nesting > 0
        &&& self.max_complexity > 0
        &&& self.min_duplicate_tokens > 0
        &&& 0 < self.similarity_percent <= 100
    }

    pub open spec fn spec_valid(&self) -> bool {
        &&& self.max_statements > 0
        &&& self.max_params > 0
        &&& self.max_nesting > 0
        &&& self.max_complexity > 0
        &&& self.min_duplicate_tokens > 0
        &&& 0 < self.similarity_percent <= 100
        &&& forall|i: int| 0 <= i < self.allowed_numbers@.len() ==> #[trigger] self.allowed_numbers@[i]@.len() > 0
        &&& forall|i: int| 0 <= i < self.directive_markers@.len() ==> #[trigger] self.directive_markers@[i]@.len() > 0
    }

    /// All rules on, `0` and `1` allowed, at most 25 statements, 4 parameters,
    /// nesting 3 and complexity 10, duplicates compared from 10 tokens on, near
    /// duplicates from 85% similarity, directives marked `lint:allow`.
    pub fn standard() -> (r: Config)
        ensures
            r.magic_numbers && r.commented_code && r.missing_docs && r.naming && r.unsafe_usage
                && r.error_handling && r.complexity && r.duplication,
            r.allowed_numbers@.len() == 2,
            r.allowed_numbers@[0]@ == seq![48u8],
            r.allowed_numbers@[1]@ == seq![49u8],
            r.max_statements == 25,
            r.max_params == 4,
            r.max_nesting == 3,
            r.max_complexity == 10,
            r.min_duplicate_tokens == 10,
            r.similarity_percent == 85,
            r.directive_markers@.len() == 1,
            r.directive_markers@[0]@ == crate::suppression::marker_bytes(),
            r.function_case == Case::Snake,
            r.type_case == Case::Pascal,
            r.constant_case == Case::Screaming,
            r.variable_case == Case::Snake,
            r.spec_valid(),
    {
        let zero: Vec<u8> = vec![48];
        let one: Vec<u8> = vec![49];
        let allowed = vec![zero, one];
        let marker: Vec<u8> = vec![108, 105, 110, 116, 58, 97, 108, 108, 111, 119];
        proof {
            assert(marker@ =~= crate::suppression::marker_bytes());
        }
        let markers = vec![marker];
        Config {
            magic_numbers: true,
            commented_code: true,
            missing_docs: true,
            naming: true,
            unsafe_usage: true,
            error_handling: true,
            complexity: true,
            duplication: true,
            allowed_numbers: allowed,
            max_statements: 25,
            max_params: 4,
            max_nesting: 3,
            max_complexity: 10,
            min_duplicate_tokens: 10,
            similarity_percent: 85,
            directive_markers: markers,
            function_case: Case::Snake,
            type_case: Case::Pascal,
            constant_case: Case::Screaming,
            variable_case: Case::Snake,
        }
    }

    /// Refuses, in this order, thresholds of zero, a similarity outside
    /// 1 to 100, empty allowed numbers and empty directive markers.
    pub fn validate(&self) -> (r: Result<(), ConfigError>)
        ensures
            r is Ok <==> self.spec_valid(),
            (r matches Err(ConfigError::ZeroThreshold)) <==> (self.max_statements == 0
                || self.max_params == 0 || self.max_nesting == 0 || self.max_complexity == 0
                || self.min_duplicate_tokens == 0),
            (r matches Err(ConfigError::BadSimilarity)) <==> (!(r matches Err(ConfigError::ZeroThreshold))
                && !(0 < self.similarity_percent <= 100)),
    {
        if self.max_statements == 0 || self.max_params == 0 || self.max_nesting == 0
            || self.max_complexity == 0 || self.min_duplicate_tokens == 0 {
            return Err(ConfigError::ZeroThreshold);
        }
        if self.similarity_percent == 0 || self.similarity_percent > 100 {
            return Err(ConfigError::BadSimilarity);
        }
        let mut i: usize = 0;
        while i < self.allowed_numbers.len()
            invariant
                i <= self.allowed_numbers@.len(),
                self.spec_valid_thresholds(),
                forall|k: int| 0 <= k < i ==> #[trigger] self.allowed_numbers@[k]@.len() > 0,
            decreases self.allowed_numbers.len() - i,
        {
            if self.allowed_numbers[i].len() == 0 {
                return Err(ConfigError::EmptyAllowedNumber);
            }
            i = i + 1;
        }
        let mut m: usize = 0;
        while m < self.directive_markers.len()
            invariant
                m <= self.directive_markers@.len(),
                self.spec_valid_thresholds(),
                forall|k: int| 0 <= k < self.allowed_numbers@.len() ==> #[trigger] self.allowed_numbers@[k]@.len() > 0,
                forall|k: int| 0 <= k < m ==> #[trigger] self.directive_markers@[k]@.len() > 0,
            decreases self.directive_markers.len() - m,
        {
            if self.directive_markers[m].len() == 0 {
                return Err(ConfigError::EmptyMarker);
            }
            m = m + 1;
        }
        Ok(())
    }
}

} // verus!
