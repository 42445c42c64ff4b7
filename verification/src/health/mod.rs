//! Health decisions for the writers of the middle-proxy pool.

pub mod backoff;
pub mod budget;
pub mod check;
pub mod check_laws;
pub mod cycle;
pub mod drain;
pub mod drain_laws;
pub mod drain_order_laws;
pub mod endpoints;
pub mod floor;
pub mod idle;
pub mod idle_laws;
pub mod ids;
pub mod live;
pub mod live_laws;
pub mod monitor;
pub mod outage;
pub mod plan;
pub mod plan_laws;
pub mod plan_order;
pub mod plan_share_laws;
pub mod plan_target_laws;
pub mod reconnect;
pub mod refresh;
pub mod rotate;
pub mod runtime_state;
pub mod warn;
pub mod zombie;
