use crate::network::NetworkConfig;
use crate::network::functions::Operation;
use crate::network::functions::answers_all;
use crate::network::layer::compute::ComputeLayer;
use crate::network::layer::compute::layer_sources_within;
use crate::network::layer::compute::layer_yields;
use crate::network::layer::input::InputLayer;
use crate::network::value::Value;
use vstd::prelude::*;

pub mod compute;
pub mod input;

verus! {

/// A layer of a network, of either kind.
pub enum Layer<'a> {
    Input(&'a InputLayer),
    Compute(&'a ComputeLayer),
}

impl<'a> Layer<'a> {
    /// How many nodes the layer has.
    pub open spec fn height(&self) -> nat {
        match self {
            Layer::Input(layer) => layer@.len(),
            Layer::Compute(layer) => layer@.len(),
        }
    }

    /// What the layer puts out: an input layer the values it holds, whatever it
    /// is given; a compute layer the value of each node for the `inputs` that
    /// the preceding layer put out.
    pub fn get_outputs<A: Fn(Operation) -> Value>(
        &self,
        config: &NetworkConfig,
        inputs: Option<Vec<Value>>,
        arith: &A,
    ) -> (outputs: Vec<Value>)
        requires
            answers_all(arith),
            self matches Layer::Compute(layer) ==> inputs is Some && layer_sources_within(
                layer@,
                inputs.unwrap()@.len() as int,
            ),
        ensures
            match self {
                Layer::Input(layer) => outputs@ == layer@,
                Layer::Compute(layer) => layer_yields(
                    arith,
                    *config,
                    layer@,
                    inputs.unwrap()@,
                    outputs@,
                ),
            },
    {
        match self {
            Layer::Input(layer) => layer.get_outputs(config, inputs),
            Layer::Compute(layer) => layer.get_outputs(config, inputs, arith),
        }
    }

    /// The place of each node in the layer, in order.
    pub fn output_node_indices(&self) -> (indices: Vec<usize>)
        ensures
            indices@ == Seq::new(self.height(), |i: int| i as usize),
    {
        match self {
            Layer::Input(layer) => layer.output_node_indices(),
            Layer::Compute(layer) => layer.output_node_indices(),
        }
    }
}

} // verus!
