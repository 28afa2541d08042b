use crate::network::Network;
use crate::network::functions::Operation;
use crate::network::functions::answers_all;
use crate::network::height_before;
use crate::network::value::Value;
use vstd::prelude::*;

pub mod game;

verus! {

/// The number of nodes in the output layer of a network.
pub open spec fn output_height(network: &Network) -> int {
    height_before(network.edges(), network.inputs().len() as int, network.edges().len() as int)
}

/// One scoring episode: plays a network through an environment of its own and
/// reports how well it did. `OP` is the arithmetic that the network is played
/// with.
pub trait TrainerAdapter<OP: Fn(Operation) -> Value> {
    /// Whether the episode can play the network.
    spec fn accepts(&self, network: &Network) -> bool;

    /// A bound that the magnitude of no fitness of this episode exceeds.
    spec fn fitness_limit(&self) -> isize;

    /// Whether `fitness` is a fitness that the episode can report for the
    /// network under the given arithmetic.
    spec fn can_score(&self, arith: &OP, network: &Network, fitness: isize) -> bool;

    /// Plays `network` and returns its fitness. The network's edges stay as
    /// they are; the values its input layer holds may change.
    fn try_out(&self, network: &mut Network, arith: &OP) -> (fitness: isize)
        requires
            old(network).well_formed(),
            self.accepts(old(network)),
            answers_all(arith),
        ensures
            final(network).config == old(network).config,
            final(network).edges() == old(network).edges(),
            final(network).inputs().len() == old(network).inputs().len(),
            -self.fitness_limit() <= fitness <= self.fitness_limit(),
            self.can_score(arith, old(network), fitness),
    ;
}

/// Makes scoring episodes, each freshly sampled.
pub trait TrainerAdapterFactory<OP: Fn(Operation) -> Value, T: TrainerAdapter<OP>> {
    /// Whether the factory is configured so that it can make episodes.
    spec fn ready(&self) -> bool;

    /// Whether the episodes of this factory can play the network.
    spec fn accepts(&self, network: &Network) -> bool;

    /// A bound that the magnitude of no fitness of any episode of this factory
    /// exceeds.
    spec fn fitness_limit(&self) -> isize;

    /// Whether the episode is one that this factory makes.
    spec fn makes(&self, adapter: &T) -> bool;

    /// A fresh episode of this factory.
    fn create_adapter(&self) -> (adapter: T)
        requires
            self.ready(),
        ensures
            self.makes(&adapter),
            forall|network: Network| self.accepts(&network) ==> #[trigger] adapter.accepts(&network),
            adapter.fitness_limit() <= self.fitness_limit(),
    ;
}

} // verus!
