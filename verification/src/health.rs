//! Health reporting for the service: a status value the health endpoint
//! serializes and returns.

use vstd::prelude::*;

verus! {

#[derive(Clone, Copy, Debug, PartialEq, Eq, Structural)]
pub enum HealthStatusEnum {
    Healthy,
    Unhealthy,
}

pub struct HealthStatus {
    pub status: HealthStatusEnum,
}

impl HealthStatus {
    /// A fresh health report always says the service is up.
    pub fn new() -> (r: Self)
        ensures
            r.status == HealthStatusEnum::Healthy,
    {
        HealthStatus { status: HealthStatusEnum::Healthy }
    }
}

} // verus!
