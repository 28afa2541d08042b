use crate::network::Network;
use crate::network::functions::Operation;
use crate::network::functions::answers_all;
use crate::network::height_before;
use crate::network::value::Value;
use vstd::prelude::*;

verus! {

/// Extracts one input value from a state of kind `S`.
pub trait InputProvider<S> {
    /// The states from which this provider can extract its value.
    spec fn accepts(&self, state: &S) -> bool;

    /// The value it extracts from `state`.
    spec fn provided(&self, state: &S) -> Value;

    fn provide(&self, state: &S) -> (value: Value)
        requires
            self.accepts(state),
        ensures
            value == self.provided(state),
    ;
}

/// What the providers extract from `state`, provider by provider.
pub open spec fn provided_values<S, P: InputProvider<S>>(providers: Seq<P>, state: &S) -> Seq<Value> {
    Seq::new(providers.len(), |i: int| providers[i].provided(state))
}

/// Whether every provider can extract its value from `state`.
pub open spec fn all_accept<S, P: InputProvider<S>>(providers: Seq<P>, state: &S) -> bool {
    forall|i: int| 0 <= i < providers.len() ==> (#[trigger] providers[i]).accepts(state)
}

/// Feeds a network from states of some kind: an ordered list of providers, one
/// for each node of the input layer, the `i`-th of which supplies the `i`-th
/// node.
pub struct NetworkHarness<P> {
    pub input_providers: Vec<P>,
}

impl<P> NetworkHarness<P> {
    /// A harness without providers.
    pub fn new() -> (harness: Self)
        ensures
            harness.input_providers@.len() == 0,
    {
        NetworkHarness { input_providers: Vec::new() }
    }

    /// This harness with `inputs` registered after its own providers.
    pub fn with_inputs(self, inputs: Vec<P>) -> (harness: Self)
        ensures
            harness.input_providers@ == self.input_providers@ + inputs@,
    {
        let mut harness = self;
        harness.add_inputs(inputs);
        harness
    }

    /// Registers `inputs`, in order, after the providers already there.
    pub fn add_inputs(&mut self, inputs: Vec<P>)
        ensures
            final(self).input_providers@ == old(self).input_providers@ + inputs@,
    {
        let mut inputs = inputs;
        self.input_providers.append(&mut inputs);
    }

    /// This harness with `provider` registered after its own providers.
    pub fn with_input(self, provider: P) -> (harness: Self)
        ensures
            harness.input_providers@ == self.input_providers@.push(provider),
    {
        let mut harness = self;
        harness.add_input(provider);
        harness
    }

    /// Registers `provider` after the providers already there.
    pub fn add_input(&mut self, provider: P)
        ensures
            final(self).input_providers@ == old(self).input_providers@.push(provider),
    {
        self.add_boxed_input(Box::new(provider));
    }

    /// Registers the boxed provider after the providers already there.
    pub fn add_boxed_input(&mut self, provider: Box<P>)
        ensures
            final(self).input_providers@ == old(self).input_providers@.push(*provider),
    {
        self.input_providers.push(*provider);
    }

    /// Refreshes the input layer of `network` from `state`, then runs the
    /// network and returns the values of its output layer, in node order. The
    /// harness must hold as many providers as the input layer has nodes.
    pub fn compute<S, A: Fn(Operation) -> Value>(
        &self,
        network: &mut Network,
        state: &S,
        arith: &A,
    ) -> (outputs: Vec<Value>) where P: InputProvider<S>
        requires
            old(network).well_formed(),
            answers_all(arith),
            self.input_providers@.len() == old(network).inputs().len(),
            all_accept(self.input_providers@, state),
        ensures
            final(network).config == old(network).config,
            final(network).edges() == old(network).edges(),
            final(network).inputs() == provided_values(self.input_providers@, state),
            final(network).yields(arith, outputs@),
            outputs@.len() == height_before(
                old(network).edges(),
                old(network).inputs().len() as int,
                old(network).edges().len() as int,
            ),
    {
        self.update_inputs(network, state);
        network.compute(arith)
    }

    /// Evaluates every provider against `state` and hands the values to the
    /// input layer of `network`, in registration order.
    fn update_inputs<S>(&self, network: &mut Network, state: &S) where P: InputProvider<S>
        requires
            self.input_providers@.len() == old(network).inputs().len(),
            all_accept(self.input_providers@, state),
        ensures
            final(network).config == old(network).config,
            final(network).compute_layers == old(network).compute_layers,
            final(network).inputs() == provided_values(self.input_providers@, state),
    {
        let mut input_values: Vec<Value> = Vec::new();
        let mut index: usize = 0;
        while index < self.input_providers.len()
            invariant
                all_accept(self.input_providers@, state),
                index <= self.input_providers@.len(),
                input_values@.len() == index,
                forall|i: int|
                    0 <= i < index ==> #[trigger] input_values@[i]
                        == self.input_providers@[i].provided(state),
            decreases self.input_providers@.len() - index,
        {
            input_values.push(self.input_providers[index].provide(state));
            index += 1;
        }
        proof {
            assert(input_values@ =~= provided_values(self.input_providers@, state));
        }
        network.input_layer.update(&input_values);
    }
}

} // verus!
