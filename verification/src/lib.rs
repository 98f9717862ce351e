//! Decentralization scores for committees of nodes, and the search for a
//! better membership.
//!
//! A subnet is a committee of nodes. Each node has a value along six
//! features: who provides it, in which data center it stands, who owns the
//! data center, and the city, country and continent of the place. For each
//! feature the Nakamoto coefficient says how many of the largest actors it
//! takes to hold more than a third of the nodes. The score of a subnet holds
//! the six coefficients; scores are ordered, subnets are checked against
//! rules, and members are exchanged for candidates so that the score grows.
//!
//! - `feature`, `node_features`, `node`: the features, the values of a node,
//!   the nodes and their identities.
//! - `kernel`: from node counts to the coefficient; `tally`: from values to
//!   node counts; `permutation`: what does not depend on an order.
//! - `score`, `order`, `wide`: the score, the order of scores, and the
//!   products by which the means of logarithms are compared.
//! - `rules`: the rules on the composition of a subnet.
//! - `network`, `requests`: subnets, the changes of their membership, and
//!   the requests that ask for them.
//! - `definition`: the decisions taken when a network to watch is added.
//! - `text`: messages.

pub mod definition;
pub mod feature;
pub mod kernel;
pub mod network;
pub mod node;
pub mod node_features;
pub mod order;
pub mod permutation;
pub mod requests;
pub mod rules;
pub mod score;
pub mod tally;
pub mod text;
pub mod wide;
