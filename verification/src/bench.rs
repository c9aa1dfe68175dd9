use vstd::prelude::*;

verus! {

/// Query parameters of the usage-statistics endpoint.
#[derive(Debug, Clone, Copy, PartialEq, Eq, Structural)]
pub struct UsageQuery {
    pub days: i64,
}

/// The reporting window used when none is given: thirty days.
pub fn default_days() -> (r: i64)
    ensures
        r == 30,
{
    30
}

/// Benchmark adapter for service-manifest validation and schema checks.
/// The measurement loop itself shells out and works in wall-clock floats,
/// so it lives with the harness; the adapter's identity is fixed here.
#[derive(Debug, Clone, PartialEq, Eq)]
pub struct MetadataValidationBenchmark {
    pub wrapper_path: String,
}

impl MetadataValidationBenchmark {
    /// An adapter pointed at the stock wrapper script.
    pub fn new() -> (r: Self)
        ensures
            r.wrapper_path@ == "./ts-wrappers/validation-cli.ts"@,
    {
        MetadataValidationBenchmark {
            wrapper_path: String::from_str("./ts-wrappers/validation-cli.ts"),
        }
    }

    /// The unique identifier of this benchmark target.
    pub fn id(&self) -> (r: &'static str)
        ensures
            r@ == "marketplace_metadata_validation"@,
    {
        "marketplace_metadata_validation"
    }
}

/// Benchmark adapter for registry lookups.
#[derive(Debug, Clone, PartialEq, Eq)]
pub struct RegistryLookupBenchmark {
    pub wrapper_path: String,
}

impl RegistryLookupBenchmark {
    /// An adapter pointed at the stock wrapper script.
    pub fn new() -> (r: Self)
        ensures
            r.wrapper_path@ == "./ts-wrappers/registry-cli.ts"@,
    {
        RegistryLookupBenchmark { wrapper_path: String::from_str("./ts-wrappers/registry-cli.ts") }
    }

    /// The unique identifier of this benchmark target.
    pub fn id(&self) -> (r: &'static str)
        ensures
            r@ == "marketplace_registry_lookup"@,
    {
        "marketplace_registry_lookup"
    }
}

/// Benchmark adapter for search queries.
#[derive(Debug, Clone, PartialEq, Eq)]
pub struct SearchQueriesBenchmark {
    pub wrapper_path: String,
}

impl SearchQueriesBenchmark {
    /// An adapter pointed at the stock wrapper script.
    pub fn new() -> (r: Self)
        ensures
            r.wrapper_path@ == "./ts-wrappers/search-cli.ts"@,
    {
        SearchQueriesBenchmark { wrapper_path: String::from_str("./ts-wrappers/search-cli.ts") }
    }

    /// The unique identifier of this benchmark target.
    pub fn id(&self) -> (r: &'static str)
        ensures
            r@ == "marketplace_search_queries"@,
    {
        "marketplace_search_queries"
    }
}

/// A trivial benchmark target used as a template and in tests.
#[derive(Debug, Clone, PartialEq, Eq)]
pub struct ExampleBenchmark {
    pub id: String,
}

impl ExampleBenchmark {
    /// An example target under the given identifier.
    pub fn new(id: String) -> (r: Self)
        ensures
            r.id == id,
    {
        ExampleBenchmark { id }
    }

    /// The unique identifier of this benchmark target.
    pub fn id(&self) -> (r: &str)
        ensures
            r@ == self.id@,
    {
        self.id.as_str()
    }
}

} // verus!
