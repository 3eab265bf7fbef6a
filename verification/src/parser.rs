//! One module per protocol message.
pub mod add_offsets_to_txn_request;
pub mod add_offsets_to_txn_response;
pub mod add_partitions_to_txn_request;
pub mod add_partitions_to_txn_response;
pub mod alter_configs_request;
pub mod alter_configs_response;
pub mod alter_replica_log_dirs_request;
pub mod api_versions_request;
pub mod api_versions_response;
pub mod controlled_shutdown_request;
pub mod controlled_shutdown_response;
pub mod create_acls_request;
pub mod create_acls_response;
pub mod create_delegation_token_request;
pub mod create_delegation_token_response;
pub mod create_partitions_request;
pub mod create_partitions_response;
pub mod create_topics_request;
pub mod create_topics_response;
pub mod delete_acls_request;
pub mod delete_acls_response;
pub mod delete_groups_request;
pub mod delete_groups_response;
pub mod delete_records_request;
pub mod delete_records_response;
pub mod delete_topics_request;
pub mod delete_topics_response;
pub mod describe_acls_response;
pub mod describe_configs_request;
pub mod describe_configs_response;
pub mod describe_delegation_token_request;
pub mod describe_delegation_token_response;
pub mod describe_groups_request;
pub mod describe_groups_response;
pub mod describe_log_dirs_request;
pub mod describe_log_dirs_response;
pub mod elect_preferred_leaders_request;
pub mod elect_preferred_leaders_response;
pub mod end_txn_request;
pub mod end_txn_response;
pub mod expire_delegation_token_request;
pub mod expire_delegation_token_response;
pub mod fetch_request;
pub mod fetch_response;
pub mod find_coordinator_request;
pub mod find_coordinator_response;
pub mod heartbeat_request;
pub mod heartbeat_response;
pub mod incremental_alter_configs_request;
pub mod incremental_alter_configs_response;
pub mod init_producer_id_request;
pub mod init_producer_id_response;
pub mod join_group_request;
pub mod record_set;
pub mod request_header;
pub mod response_header;
