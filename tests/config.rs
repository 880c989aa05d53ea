use parallel_executor::config::{
    AptosDataClientConfig, BootstrappingMode, ChainId, ContinuousSyncingMode, DagConfig,
    DataStreamingServiceConfig, LocalStateSyncSettings, NodeType, StateSyncConfig,
    StateSyncDriverConfig, StorageServiceConfig, MAX_CONCURRENT_REQUESTS,
    MAX_CONCURRENT_STATE_REQUESTS,
};
use serde_yaml::Value;

/// Which of the optimized settings a local configuration file sets.
fn local_settings(local_config_yaml: &Value) -> LocalStateSyncSettings {
    let state_sync = &local_config_yaml["state_sync"];
    LocalStateSyncSettings {
        bootstrapping_mode: !state_sync["state_sync_driver"]["bootstrapping_mode"].is_null(),
        max_concurrent_requests: !state_sync["data_streaming_service"]["max_concurrent_requests"].is_null(),
        max_concurrent_state_requests: !state_sync["data_streaming_service"]["max_concurrent_state_requests"]
            .is_null(),
    }
}

/// A state sync config with the syncing modes set to execution.
fn create_execution_mode_config() -> StateSyncConfig {
    let mut config = StateSyncConfig::default();
    config.state_sync_driver.bootstrapping_mode = BootstrappingMode::ExecuteTransactionsFromGenesis;
    config.state_sync_driver.continuous_syncing_mode = ContinuousSyncingMode::ExecuteTransactions;
    config
}

/// A local config YAML: with the bootstrapping mode set to
/// `ExecuteTransactionsFromGenesis`, or with an irrelevant field.
fn generate_local_config_yaml(set_bootstrapping_mode: bool) -> Value {
    let yaml_string = if set_bootstrapping_mode {
        r#"
            state_sync:
                state_sync_driver:
                    bootstrapping_mode: ExecuteTransactionsFromGenesis
            "#
    } else {
        r#"
            state_sync:
                state_sync_driver:
                    irrelevant_field: true
            "#
    };
    serde_yaml::from_str(yaml_string).unwrap()
}

#[test]
fn test_optimize_bootstrapping_mode_testnet_vfn() {
    let mut config = create_execution_mode_config();
    let local_config_yaml = generate_local_config_yaml(false);
    config.optimize(&local_settings(&local_config_yaml), NodeType::ValidatorFullnode, ChainId::testnet());
    assert_eq!(config.state_sync_driver.bootstrapping_mode, BootstrappingMode::DownloadLatestStates);
}

#[test]
fn test_optimize_bootstrapping_mode_testnet_validator() {
    let mut config = create_execution_mode_config();
    let local_config_yaml = generate_local_config_yaml(false);
    config.optimize(&local_settings(&local_config_yaml), NodeType::ValidatorFullnode, ChainId::testnet());
    assert_eq!(config.state_sync_driver.bootstrapping_mode, BootstrappingMode::DownloadLatestStates);
}

#[test]
fn test_optimize_bootstrapping_mode_mainnet_vfn() {
    let mut config = create_execution_mode_config();
    let local_config_yaml = generate_local_config_yaml(false);
    config.optimize(&local_settings(&local_config_yaml), NodeType::ValidatorFullnode, ChainId::mainnet());
    assert_eq!(
        config.state_sync_driver.bootstrapping_mode,
        BootstrappingMode::ExecuteTransactionsFromGenesis
    );
}

#[test]
fn test_optimize_bootstrapping_mode_no_override() {
    let mut config = create_execution_mode_config();
    let local_config_yaml = generate_local_config_yaml(true);
    config.optimize(&local_settings(&local_config_yaml), NodeType::ValidatorFullnode, ChainId::testnet());
    assert_eq!(
        config.state_sync_driver.bootstrapping_mode,
        BootstrappingMode::ExecuteTransactionsFromGenesis
    );
}

#[test]
fn test_optimize_prefetcher_mainnet_validator() {
    let mut config = StateSyncConfig::default();
    let local_config_yaml = generate_local_config_yaml(false);
    config.optimize(&local_settings(&local_config_yaml), NodeType::Validator, ChainId::mainnet());
    assert_eq!(config.data_streaming_service.max_concurrent_requests, MAX_CONCURRENT_REQUESTS * 2);
    assert_eq!(
        config.data_streaming_service.max_concurrent_state_requests,
        MAX_CONCURRENT_STATE_REQUESTS * 2
    );
}

#[test]
fn test_optimize_prefetcher_testnet_pfn() {
    let mut config = StateSyncConfig::default();
    let local_config_yaml = generate_local_config_yaml(false);
    config.optimize(&local_settings(&local_config_yaml), NodeType::PublicFullnode, ChainId::testnet());
    assert_eq!(config.data_streaming_service.max_concurrent_requests, MAX_CONCURRENT_REQUESTS);
    assert_eq!(config.data_streaming_service.max_concurrent_state_requests, MAX_CONCURRENT_STATE_REQUESTS);
}

#[test]
fn test_optimize_prefetcher_vfn_no_override() {
    let mut config = StateSyncConfig::default();
    config.data_streaming_service.max_concurrent_state_requests = 100;
    let local_config_yaml: Value = serde_yaml::from_str(
        r#"
            state_sync:
                data_streaming_service:
                    max_concurrent_state_requests: 100
            "#,
    )
    .unwrap();
    config.optimize(&local_settings(&local_config_yaml), NodeType::ValidatorFullnode, ChainId::testnet());
    assert_eq!(config.data_streaming_service.max_concurrent_requests, MAX_CONCURRENT_REQUESTS * 2,);
    assert_eq!(config.data_streaming_service.max_concurrent_state_requests, 100);
}

#[test]
fn labels() {
    assert_eq!(BootstrappingMode::ApplyTransactionOutputsFromGenesis.to_label(), "apply_transaction_outputs_from_genesis");
    assert_eq!(BootstrappingMode::DownloadLatestStates.to_label(), "download_latest_states");
    assert_eq!(BootstrappingMode::ExecuteTransactionsFromGenesis.to_label(), "execute_transactions_from_genesis");
    assert_eq!(BootstrappingMode::ExecuteOrApplyFromGenesis.to_label(), "execute_or_apply_from_genesis");
    assert_eq!(ContinuousSyncingMode::ApplyTransactionOutputs.to_label(), "apply_transaction_outputs");
    assert_eq!(ContinuousSyncingMode::ExecuteTransactions.to_label(), "execute_transactions");
    assert_eq!(
        ContinuousSyncingMode::ExecuteTransactionsOrApplyOutputs.to_label(),
        "execute_transactions_or_apply_outputs"
    );
}

#[test]
fn defaults() {
    let dag = DagConfig::default();
    assert_eq!((dag.channel_size, dag.max_node_txns, dag.max_node_bytes), (100, 1000, 8000000));
    let driver = StateSyncDriverConfig::default();
    assert_eq!(driver.commit_notification_timeout_ms, 5000);
    assert_eq!(driver.num_versions_to_skip_snapshot_sync, 100_000_000);
    assert!(!driver.enable_auto_bootstrapping);
    let storage = StorageServiceConfig::default();
    assert_eq!(storage.max_network_chunk_bytes, 4 * 1024 * 1024);
    assert_eq!(storage.max_state_chunk_size, 4000);
    let streaming = DataStreamingServiceConfig::default();
    assert_eq!(streaming.max_data_stream_channel_sizes, 300);
    let client = AptosDataClientConfig::default();
    assert_eq!(client.max_response_timeout_ms, 60000);
    assert_eq!(client.max_transaction_output_chunk_size, 1000);
    let all = StateSyncConfig::default();
    assert_eq!(all.state_sync_driver, driver);
    assert_eq!(all.storage_service, storage);
    assert_eq!(all.data_streaming_service, streaming);
    assert_eq!(all.aptos_data_client, client);
}
