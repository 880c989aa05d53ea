use vstd::prelude::*;

verus! {

/// The maximum message size per state sync message (4 MiB).
pub const MAX_MESSAGE_SIZE: usize = 4 * 1024 * 1024;

/// The maximum chunk sizes for data client requests and responses.
pub const MAX_EPOCH_CHUNK_SIZE: u64 = 200;

pub const MAX_STATE_CHUNK_SIZE: u64 = 4000;

pub const MAX_TRANSACTION_CHUNK_SIZE: u64 = 2000;

pub const MAX_TRANSACTION_OUTPUT_CHUNK_SIZE: u64 = 1000;

/// The maximum number of concurrent requests to send.
pub const MAX_CONCURRENT_REQUESTS: u64 = 6;

pub const MAX_CONCURRENT_STATE_REQUESTS: u64 = 6;

/// Settings of the DAG-based consensus.
#[derive(Clone, Copy, Debug, PartialEq, Eq, Structural)]
pub struct DagConfig {
    pub channel_size: usize,
    pub max_node_txns: u64,
    pub max_node_bytes: u64,
}

impl Default for DagConfig {
    fn default() -> (r: DagConfig)
        ensures
            r == (DagConfig { channel_size: 100, max_node_txns: 1000, max_node_bytes: 8000000 }),
    {
        DagConfig {
            channel_size: 100,
            // The best is probably to pull all local proofs.
            max_node_txns: 1000,
            max_node_bytes: 8000000,
        }
    }
}

/// How a node bootstraps to the latest blockchain state.
#[derive(Clone, Copy, Debug, PartialEq, Eq, Structural)]
pub enum BootstrappingMode {
    /// Applies transaction outputs, starting at genesis.
    ApplyTransactionOutputsFromGenesis,
    /// Downloads the state keys and values at the latest version.
    DownloadLatestStates,
    /// Executes transactions, starting at genesis.
    ExecuteTransactionsFromGenesis,
    /// Executes transactions or applies outputs from genesis, whichever is faster.
    ExecuteOrApplyFromGenesis,
}

pub open spec fn bootstrapping_label(m: BootstrappingMode) -> Seq<char> {
    match m {
        BootstrappingMode::ApplyTransactionOutputsFromGenesis => "apply_transaction_outputs_from_genesis"@,
        BootstrappingMode::DownloadLatestStates => "download_latest_states"@,
        BootstrappingMode::ExecuteTransactionsFromGenesis => "execute_transactions_from_genesis"@,
        BootstrappingMode::ExecuteOrApplyFromGenesis => "execute_or_apply_from_genesis"@,
    }
}

impl BootstrappingMode {
    pub fn to_label(&self) -> (r: &'static str)
        ensures
            r@ == bootstrapping_label(*self),
    {
        match self {
            BootstrappingMode::ApplyTransactionOutputsFromGenesis => {
                "apply_transaction_outputs_from_genesis"
            },
            BootstrappingMode::DownloadLatestStates => "download_latest_states",
            BootstrappingMode::ExecuteTransactionsFromGenesis => {
                "execute_transactions_from_genesis"
            },
            BootstrappingMode::ExecuteOrApplyFromGenesis => "execute_or_apply_from_genesis",
        }
    }
}

/// How a bootstrapped node stays up to date.
#[derive(Clone, Copy, Debug, PartialEq, Eq, Structural)]
pub enum ContinuousSyncingMode {
    /// Applies transaction outputs.
    ApplyTransactionOutputs,
    /// Executes transactions.
    ExecuteTransactions,
    /// Executes transactions or applies outputs, whichever is faster.
    ExecuteTransactionsOrApplyOutputs,
}

pub open spec fn syncing_label(m: ContinuousSyncingMode) -> Seq<char> {
    match m {
        ContinuousSyncingMode::ApplyTransactionOutputs => "apply_transaction_outputs"@,
        ContinuousSyncingMode::ExecuteTransactions => "execute_transactions"@,
        ContinuousSyncingMode::ExecuteTransactionsOrApplyOutputs => "execute_transactions_or_apply_outputs"@,
    }
}

impl ContinuousSyncingMode {
    pub fn to_label(&self) -> (r: &'static str)
        ensures
            r@ == syncing_label(*self),
    {
        match self {
            ContinuousSyncingMode::ApplyTransactionOutputs => "apply_transaction_outputs",
            ContinuousSyncingMode::ExecuteTransactions => "execute_transactions",
            ContinuousSyncingMode::ExecuteTransactionsOrApplyOutputs => {
                "execute_transactions_or_apply_outputs"
            },
        }
    }
}

/// Settings of the state sync driver.
#[derive(Clone, Copy, Debug, PartialEq, Eq, Structural)]
pub struct StateSyncDriverConfig {
    /// The mode by which to bootstrap.
    pub bootstrapping_mode: BootstrappingMode,
    /// The max time taken to process a commit notification.
    pub commit_notification_timeout_ms: u64,
    /// The mode by which to sync after bootstrapping.
    pub continuous_syncing_mode: ContinuousSyncingMode,
    /// Bootstrap automatically if no peers are found in time.
    pub enable_auto_bootstrapping: bool,
    /// How long to fall back to output syncing after an execution failure.
    pub fallback_to_output_syncing_secs: u64,
    /// The interval (ms) at which to check state sync progress.
    pub progress_check_interval_ms: u64,
    /// The max time (secs) to wait for peers before auto-bootstrapping.
    pub max_connection_deadline_secs: u64,
    /// The max number of notifications to process per driver loop.
    pub max_consecutive_stream_notifications: u64,
    /// The max number of stream timeouts allowed before termination.
    pub max_num_stream_timeouts: u64,
    /// The max number of data chunks pending execution or commit.
    pub max_pending_data_chunks: u64,
    /// The max time (ms) to wait for a data stream notification.
    pub max_stream_wait_time_ms: u64,
    /// The version lag tolerated before snapshot syncing.
    pub num_versions_to_skip_snapshot_sync: u64,
}

pub open spec fn default_driver() -> StateSyncDriverConfig {
    StateSyncDriverConfig {
        bootstrapping_mode: BootstrappingMode::ApplyTransactionOutputsFromGenesis,
        commit_notification_timeout_ms: 5000,
        continuous_syncing_mode: ContinuousSyncingMode::ApplyTransactionOutputs,
        enable_auto_bootstrapping: false,
        fallback_to_output_syncing_secs: 180,
        progress_check_interval_ms: 100,
        max_connection_deadline_secs: 10,
        max_consecutive_stream_notifications: 10,
        max_num_stream_timeouts: 12,
        max_pending_data_chunks: 100,
        max_stream_wait_time_ms: 5000,
        num_versions_to_skip_snapshot_sync: 100_000_000,
    }
}

impl Default for StateSyncDriverConfig {
    /// The configuration that gets (and keeps) a node up to date as quickly
    /// and cheaply as possible.
    fn default() -> (r: StateSyncDriverConfig)
        ensures
            r == default_driver(),
    {
        StateSyncDriverConfig {
            bootstrapping_mode: BootstrappingMode::ApplyTransactionOutputsFromGenesis,
            commit_notification_timeout_ms: 5000,
            continuous_syncing_mode: ContinuousSyncingMode::ApplyTransactionOutputs,
            enable_auto_bootstrapping: false,
            fallback_to_output_syncing_secs: 180,  // 3 minutes
            progress_check_interval_ms: 100,
            max_connection_deadline_secs: 10,
            max_consecutive_stream_notifications: 10,
            max_num_stream_timeouts: 12,
            max_pending_data_chunks: 100,
            max_stream_wait_time_ms: 5000,
            // At 5k TPS, this allows a node to fail for about 6 hours.
            num_versions_to_skip_snapshot_sync: 100_000_000,
        }
    }
}

/// Settings of the storage service.
#[derive(Clone, Copy, Debug, PartialEq, Eq, Structural)]
pub struct StorageServiceConfig {
    /// Max num of concurrent storage server tasks.
    pub max_concurrent_requests: u64,
    /// Max num of epoch ending ledger infos per chunk.
    pub max_epoch_chunk_size: u64,
    /// Max num of items in the lru cache before eviction.
    pub max_lru_cache_size: u64,
    /// Max num of pending network messages.
    pub max_network_channel_size: u64,
    /// Max num of bytes to send per network message.
    pub max_network_chunk_bytes: u64,
    /// Max num of state keys and values per chunk.
    pub max_state_chunk_size: u64,
    /// Max period (ms) of pending subscription requests.
    pub max_subscription_period_ms: u64,
    /// Max num of transactions per chunk.
    pub max_transaction_chunk_size: u64,
    /// Max num of transaction outputs per chunk.
    pub max_transaction_output_chunk_size: u64,
    /// The interval (ms) to refresh the storage summary.
    pub storage_summary_refresh_interval_ms: u64,
}

pub open spec fn default_storage_service() -> StorageServiceConfig {
    StorageServiceConfig {
        max_concurrent_requests: 4000,
        max_epoch_chunk_size: MAX_EPOCH_CHUNK_SIZE,
        max_lru_cache_size: 500,
        max_network_channel_size: 4000,
        max_network_chunk_bytes: MAX_MESSAGE_SIZE as u64,
        max_state_chunk_size: MAX_STATE_CHUNK_SIZE,
        max_subscription_period_ms: 5000,
        max_transaction_chunk_size: MAX_TRANSACTION_CHUNK_SIZE,
        max_transaction_output_chunk_size: MAX_TRANSACTION_OUTPUT_CHUNK_SIZE,
        storage_summary_refresh_interval_ms: 50,
    }
}

impl Default for StorageServiceConfig {
    fn default() -> (r: StorageServiceConfig)
        ensures
            r == default_storage_service(),
    {
        StorageServiceConfig {
            max_concurrent_requests: 4000,
            max_epoch_chunk_size: MAX_EPOCH_CHUNK_SIZE,
            // At ~0.6MiB per chunk, this should take no more than 0.5GiB.
            max_lru_cache_size: 500,
            max_network_channel_size: 4000,
            max_network_chunk_bytes: MAX_MESSAGE_SIZE as u64,
            max_state_chunk_size: MAX_STATE_CHUNK_SIZE,
            max_subscription_period_ms: 5000,
            max_transaction_chunk_size: MAX_TRANSACTION_CHUNK_SIZE,
            max_transaction_output_chunk_size: MAX_TRANSACTION_OUTPUT_CHUNK_SIZE,
            storage_summary_refresh_interval_ms: 50,
        }
    }
}

/// Settings of the data streaming service.
#[derive(Clone, Copy, Debug, PartialEq, Eq, Structural)]
pub struct DataStreamingServiceConfig {
    /// The interval (ms) at which to refresh the global data summary.
    pub global_summary_refresh_interval_ms: u64,
    /// Maximum number of concurrent data client requests (per stream).
    pub max_concurrent_requests: u64,
    /// Maximum number of concurrent data client requests (per stream) for
    /// state keys and values.
    pub max_concurrent_state_requests: u64,
    /// Maximum channel sizes for each data stream listener. Messages that are
    /// not consumed are dropped, oldest first.
    pub max_data_stream_channel_sizes: u64,
    /// Maximum number of retries of a client request before a data stream
    /// terminates.
    pub max_request_retry: u64,
    /// Maximum number of notification ID to response context mappings held
    /// in memory before garbage collection.
    pub max_notification_id_mappings: u64,
    /// The interval (ms) at which to check the progress of each stream.
    pub progress_check_interval_ms: u64,
}

pub open spec fn default_streaming() -> DataStreamingServiceConfig {
    DataStreamingServiceConfig {
        global_summary_refresh_interval_ms: 50,
        max_concurrent_requests: MAX_CONCURRENT_REQUESTS,
        max_concurrent_state_requests: MAX_CONCURRENT_REQUESTS,
        max_data_stream_channel_sizes: 300,
        max_request_retry: 5,
        max_notification_id_mappings: 300,
        progress_check_interval_ms: 100,
    }
}

impl Default for DataStreamingServiceConfig {
    fn default() -> (r: DataStreamingServiceConfig)
        ensures
            r == default_streaming(),
    {
        DataStreamingServiceConfig {
            global_summary_refresh_interval_ms: 50,
            max_concurrent_requests: MAX_CONCURRENT_REQUESTS,
            max_concurrent_state_requests: MAX_CONCURRENT_REQUESTS,
            max_data_stream_channel_sizes: 300,
            max_request_retry: 5,
            max_notification_id_mappings: 300,
            progress_check_interval_ms: 100,
        }
    }
}

/// Settings of the data client.
#[derive(Clone, Copy, Debug, PartialEq, Eq, Structural)]
pub struct AptosDataClientConfig {
    /// Max num of epoch ending ledger infos per chunk.
    pub max_epoch_chunk_size: u64,
    /// Max num of in-flight polls for priority peers.
    pub max_num_in_flight_priority_polls: u64,
    /// Max num of in-flight polls for regular peers.
    pub max_num_in_flight_regular_polls: u64,
    /// The max num of output reductions before transactions are returned.
    pub max_num_output_reductions: u64,
    /// Max timeout (ms) when waiting for a response, after exponential
    /// increases.
    pub max_response_timeout_ms: u64,
    /// Max num of state keys and values per chunk.
    pub max_state_chunk_size: u64,
    /// Max num of transactions per chunk.
    pub max_transaction_chunk_size: u64,
    /// Max num of transaction outputs per chunk.
    pub max_transaction_output_chunk_size: u64,
    /// First timeout (ms) when waiting for a response.
    pub response_timeout_ms: u64,
    /// Timeout (ms) when waiting for a subscription response.
    pub subscription_timeout_ms: u64,
    /// Interval (ms) between data summary polls.
    pub summary_poll_interval_ms: u64,
    /// Whether to request compression for incoming data.
    pub use_compression: bool,
}

pub open spec fn default_data_client() -> AptosDataClientConfig {
    AptosDataClientConfig {
        max_epoch_chunk_size: MAX_EPOCH_CHUNK_SIZE,
        max_num_in_flight_priority_polls: 10,
        max_num_in_flight_regular_polls: 10,
        max_num_output_reductions: 0,
        max_response_timeout_ms: 60000,
        max_state_chunk_size: MAX_STATE_CHUNK_SIZE,
        max_transaction_chunk_size: MAX_TRANSACTION_CHUNK_SIZE,
        max_transaction_output_chunk_size: MAX_TRANSACTION_OUTPUT_CHUNK_SIZE,
        response_timeout_ms: 10000,
        subscription_timeout_ms: 5000,
        summary_poll_interval_ms: 200,
        use_compression: true,
    }
}

impl Default for AptosDataClientConfig {
    fn default() -> (r: AptosDataClientConfig)
        ensures
            r == default_data_client(),
    {
        AptosDataClientConfig {
            max_epoch_chunk_size: MAX_EPOCH_CHUNK_SIZE,
            max_num_in_flight_priority_polls: 10,
            max_num_in_flight_regular_polls: 10,
            max_num_output_reductions: 0,
            max_response_timeout_ms: 60000,  // 60 seconds
            max_state_chunk_size: MAX_STATE_CHUNK_SIZE,
            max_transaction_chunk_size: MAX_TRANSACTION_CHUNK_SIZE,
            max_transaction_output_chunk_size: MAX_TRANSACTION_OUTPUT_CHUNK_SIZE,
            response_timeout_ms: 10000,  // 10 seconds
            subscription_timeout_ms: 5000,  // 5 seconds
            summary_poll_interval_ms: 200,
            use_compression: true,
        }
    }
}

/// The state sync settings of a node.
#[derive(Clone, Copy, Debug, PartialEq, Eq, Structural)]
pub struct StateSyncConfig {
    pub data_streaming_service: DataStreamingServiceConfig,
    pub aptos_data_client: AptosDataClientConfig,
    pub state_sync_driver: StateSyncDriverConfig,
    pub storage_service: StorageServiceConfig,
}

impl Default for StateSyncConfig {
    fn default() -> (r: StateSyncConfig)
        ensures
            r == (StateSyncConfig {
                data_streaming_service: default_streaming(),
                aptos_data_client: default_data_client(),
                state_sync_driver: default_driver(),
                storage_service: default_storage_service(),
            }),
    {
        StateSyncConfig {
            data_streaming_service: DataStreamingServiceConfig::default(),
            aptos_data_client: AptosDataClientConfig::default(),
            state_sync_driver: StateSyncDriverConfig::default(),
            storage_service: StorageServiceConfig::default(),
        }
    }
}

/// The role of a node in the network.
#[derive(Clone, Copy, Debug, PartialEq, Eq, Structural)]
pub enum NodeType {
    Validator,
    ValidatorFullnode,
    PublicFullnode,
}

impl NodeType {
    pub fn is_validator(&self) -> (r: bool)
        ensures
            r == (*self == NodeType::Validator),
    {
        match self {
            NodeType::Validator => true,
            _ => false,
        }
    }

    pub fn is_validator_fullnode(&self) -> (r: bool)
        ensures
            r == (*self == NodeType::ValidatorFullnode),
    {
        match self {
            NodeType::ValidatorFullnode => true,
            _ => false,
        }
    }
}

/// The identifier of a chain; 1 is mainnet and 2 is testnet.
#[derive(Clone, Copy, Debug, PartialEq, Eq, Structural)]
pub struct ChainId {
    pub id: u8,
}

impl ChainId {
    pub fn new(id: u8) -> (r: ChainId)
        ensures
            r.id == id,
    {
        ChainId { id }
    }

    pub fn mainnet() -> (r: ChainId)
        ensures
            r.id == 1,
    {
        ChainId { id: 1 }
    }

    pub fn testnet() -> (r: ChainId)
        ensures
            r.id == 2,
    {
        ChainId { id: 2 }
    }

    pub fn is_testnet(&self) -> (r: bool)
        ensures
            r == (self.id == 2),
    {
        self.id == 2
    }
}

/// Which state sync settings the node's local configuration file sets
/// explicitly; the optimizer never overrides those.
#[derive(Clone, Copy, Debug, PartialEq, Eq, Structural)]
pub struct LocalStateSyncSettings {
    pub bootstrapping_mode: bool,
    pub max_concurrent_requests: bool,
    pub max_concurrent_state_requests: bool,
}

impl StateSyncDriverConfig {
    /// Testnet nodes bootstrap by downloading the latest states, unless the
    /// local configuration chooses a mode.
    pub fn optimize(&mut self, local: &LocalStateSyncSettings, chain_id: ChainId)
        ensures
            *final(self) == (StateSyncDriverConfig {
                bootstrapping_mode: if chain_id.id == 2 && !local.bootstrapping_mode {
                    BootstrappingMode::DownloadLatestStates
                } else {
                    old(self).bootstrapping_mode
                },
                ..*old(self)
            }),
    {
        if chain_id.is_testnet() && !local.bootstrapping_mode {
            self.bootstrapping_mode = BootstrappingMode::DownloadLatestStates;
        }
    }
}

impl DataStreamingServiceConfig {
    /// Validators and validator fullnodes prefetch twice as aggressively,
    /// except where the local configuration sets the limit.
    pub fn optimize(&mut self, local: &LocalStateSyncSettings, node_type: NodeType)
        ensures
            ({
                let fast = node_type == NodeType::Validator || node_type
                    == NodeType::ValidatorFullnode;
                *final(self) == (DataStreamingServiceConfig {
                    max_concurrent_requests: if fast && !local.max_concurrent_requests {
                        (MAX_CONCURRENT_REQUESTS * 2) as u64
                    } else {
                        old(self).max_concurrent_requests
                    },
                    max_concurrent_state_requests: if fast && !local.max_concurrent_state_requests {
                        (MAX_CONCURRENT_STATE_REQUESTS * 2) as u64
                    } else {
                        old(self).max_concurrent_state_requests
                    },
                    ..*old(self)
                })
            }),
    {
        if node_type.is_validator() || node_type.is_validator_fullnode() {
            if !local.max_concurrent_requests {
                self.max_concurrent_requests = MAX_CONCURRENT_REQUESTS * 2;
            }
            if !local.max_concurrent_state_requests {
                self.max_concurrent_state_requests = MAX_CONCURRENT_STATE_REQUESTS * 2;
            }
        }
    }
}

impl StateSyncConfig {
    /// Optimizes the driver and data streaming settings for the node's role
    /// and chain; everything else is left as it is.
    pub fn optimize(&mut self, local: &LocalStateSyncSettings, node_type: NodeType, chain_id: ChainId)
        ensures
            ({
                let fast = node_type == NodeType::Validator || node_type
                    == NodeType::ValidatorFullnode;
                *final(self) == (StateSyncConfig {
                    state_sync_driver: StateSyncDriverConfig {
                        bootstrapping_mode: if chain_id.id == 2 && !local.bootstrapping_mode {
                            BootstrappingMode::DownloadLatestStates
                        } else {
                            old(self).state_sync_driver.bootstrapping_mode
                        },
                        ..old(self).state_sync_driver
                    },
                    data_streaming_service: DataStreamingServiceConfig {
                        max_concurrent_requests: if fast && !local.max_concurrent_requests {
                            (MAX_CONCURRENT_REQUESTS * 2) as u64
                        } else {
                            old(self).data_streaming_service.max_concurrent_requests
                        },
                        max_concurrent_state_requests: if fast
                            && !local.max_concurrent_state_requests {
                            (MAX_CONCURRENT_STATE_REQUESTS * 2) as u64
                        } else {
                            old(self).data_streaming_service.max_concurrent_state_requests
                        },
                        ..old(self).data_streaming_service
                    },
                    ..*old(self)
                })
            }),
    {
        self.state_sync_driver.optimize(local, chain_id);
        self.data_streaming_service.optimize(local, node_type);
    }
}

} // verus!
