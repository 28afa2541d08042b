use crate::network::NetworkConfig;
use crate::network::value::Value;
use vstd::prelude::*;

verus! {

/// The first layer of a network. It has no edges: it holds the values that
/// were last supplied from outside, one for each of its nodes.
#[derive(Debug, PartialEq, Eq)]
pub struct InputLayer {
    output_values: Vec<Value>,
}

impl View for InputLayer {
    type V = Seq<Value>;

    closed spec fn view(&self) -> Seq<Value> {
        self.output_values@
    }
}

impl Clone for InputLayer {
    fn clone(&self) -> (copy: InputLayer)
        ensures
            copy@ == self@,
    {
        InputLayer { output_values: self.output_values.clone() }
    }
}

impl InputLayer {
    /// A layer of `height` nodes, each holding zero.
    pub fn new(height: usize) -> (layer: InputLayer)
        ensures
            layer@.len() == height,
            forall|i: int| 0 <= i < height ==> (#[trigger] layer@[i]).bits == 0,
    {
        let mut output_values: Vec<Value> = Vec::new();
        let mut filled: usize = 0;
        while filled < height
            invariant
                filled <= height,
                output_values@.len() == filled,
                forall|i: int| 0 <= i < filled ==> (#[trigger] output_values@[i]).bits == 0,
            decreases height - filled,
        {
            output_values.push(Value::zero());
            filled += 1;
        }
        InputLayer { output_values }
    }

    /// A layer that holds the given values.
    pub fn with_values(output_values: Vec<Value>) -> (layer: InputLayer)
        ensures
            layer@ == output_values@,
    {
        InputLayer { output_values }
    }

    /// How many nodes the layer has.
    pub fn height(&self) -> (height: usize)
        ensures
            height == self@.len(),
    {
        self.output_values.len()
    }

    /// Supplies the nodes with `values`, one for each node, in order.
    pub fn update(&mut self, values: &Vec<Value>)
        requires
            values@.len() == old(self)@.len(),
        ensures
            final(self)@ == values@,
    {
        let mut index: usize = 0;
        while index < values.len()
            invariant
                index <= values@.len(),
                values@.len() == self@.len(),
                forall|i: int| 0 <= i < index ==> self@[i] == values@[i],
            decreases values@.len() - index,
        {
            self.output_values[index] = values[index];
            index += 1;
        }
        proof {
            assert(self@ =~= values@);
        }
    }

    /// The values that the layer holds.
    pub fn get_outputs(&self, _config: &NetworkConfig, _inputs: Option<Vec<Value>>) -> (outputs: Vec<
        Value,
    >)
        ensures
            outputs@ == self@,
    {
        self.output_values.clone()
    }

    /// The place of each node in the layer, in order.
    pub fn output_node_indices(&self) -> (indices: Vec<usize>)
        ensures
            indices@ == Seq::new(self@.len(), |i: int| i as usize),
    {
        node_indices(self.output_values.len())
    }
}

/// The numbers from zero up to `height`, in order.
pub fn node_indices(height: usize) -> (indices: Vec<usize>)
    ensures
        indices@ == Seq::new(height as nat, |i: int| i as usize),
{
    let mut indices: Vec<usize> = Vec::new();
    let mut index: usize = 0;
    while index < height
        invariant
            index <= height,
            indices@ == Seq::new(index as nat, |i: int| i as usize),
        decreases height - index,
    {
        indices.push(index);
        proof {
            assert(indices@ =~= Seq::new((index + 1) as nat, |i: int| i as usize));
        }
        index += 1;
    }
    indices
}

} // verus!
