//! Structural statistics over a disease/location incidence graph.
//!
//! Rows of incidence data become a directed graph whose nodes are the
//! distinct labels and whose edges carry the incidence count. The queries
//! over the finished graph are shortest-path distances, degree statistics,
//! bounded neighbourhoods, similarity of successor sets and a validity
//! check for power-law samples.

pub mod builder;
pub mod graph;
pub mod metrics;
pub mod model;
pub mod neighborhood;
pub mod paths;
pub mod power_law;
pub mod ratio;
pub mod record;
pub mod similarity;
pub mod storage;

pub use builder::{
    add_record, build_graph, build_graph_from_csv, generate_graph_from_csv, read_rows, Layout,
};
pub use graph::{GraphView, IncidenceGraph, NodeId};
pub use metrics::{
    average_degree, average_distance_between_vertices, calculate_average_distance,
    calculate_min_connections, degree_distribution, neighbors_at_distance_2_distribution, out_degrees,
};
pub use neighborhood::{average_neighbor_degree, bfs_neighbors_at_distance, reach_flags};
pub use paths::{degrees_of_separation, shortest_distances, shortest_path_length};
pub use power_law::{fit_power_law_distribution, InvalidSample};
pub use ratio::Ratio;
pub use record::{parse_count, parse_record, Field, MalformedRecord, Record, RecordView};
pub use similarity::{friend_recommendation_similarity, jaccard_similarity};
