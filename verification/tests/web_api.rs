use realm_agent::metrics::Metrics;
use realm_agent::web::{api_status, PeerTable};

#[test]
fn test_real_data_integration() {
    let mut metrics = Metrics::new();
    metrics.set_components_desired(2);
    metrics.inc_components_running();
    let peers = PeerTable::new();
    let status = api_status(&peers, metrics.components_running);
    assert_eq!(status.nodes, 1);
    assert_eq!(status.components, 1);
}
