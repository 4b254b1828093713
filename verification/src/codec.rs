use vstd::prelude::*;
use vstd::bytes::{spec_u64_to_le_bytes, spec_u64_from_le_bytes, u64_to_le_bytes, u64_from_le_bytes,
    lemma_auto_spec_u64_to_from_le_bytes};
use crate::activation::ActivationFunction;
use crate::conv2d::Conv2D;
use crate::conv2d::Filter;
use crate::cost::CostFunction;
use crate::fully_connected::FullyConnected;
use crate::input::Input;
use crate::layer::LayerEnum;
use crate::network::Network;
use crate::pool::Pool2D;

verus! {

// ---------------------------------------------------------------------------
// Abstract models of the parameter-carrying types, and views onto them.
// ---------------------------------------------------------------------------

/// Abstract value of a [`Filter`].
pub ghost struct FilterModel {
    pub rows: usize,
    pub cols: usize,
    pub values: Seq<u64>,
}

impl FilterModel {
    /// The value list fills the grid, and the grid is addressable.
    pub open spec fn wf(self) -> bool {
        &&& self.values.len() == self.rows * self.cols
        &&& self.rows * self.cols <= usize::MAX
    }
}

impl View for Filter {
    type V = FilterModel;

    open spec fn view(&self) -> FilterModel {
        FilterModel { rows: self.rows, cols: self.cols, values: self.values@ }
    }
}

/// Abstract value of a [`Conv2D`] layer.
pub ghost struct ConvModel {
    pub input_width: usize,
    pub input_height: usize,
    pub filters: Seq<FilterModel>,
}

/// Combined length of the first `n` filters' output maps, at the model
/// level.
pub open spec fn spec_model_conv_size(filters: Seq<FilterModel>, width: int, height: int, n: int) -> int
    decreases n,
{
    if n <= 0 {
        0
    } else {
        spec_model_conv_size(filters, width, height, n - 1) + (width - filters[n - 1].cols + 1) * (
        height - filters[n - 1].rows + 1)
    }
}

impl ConvModel {
    /// Mirror of [`Conv2D::wf`]: every filter fits inside the input grid and
    /// the combined output length is representable.
    pub open spec fn wf(self) -> bool {
        &&& self.filters.len() <= usize::MAX
        &&& forall|i: int|
            0 <= i < self.filters.len() ==> {
                &&& (#[trigger] self.filters[i]).wf()
                &&& 0 < self.filters[i].rows <= self.input_height
                &&& 0 < self.filters[i].cols <= self.input_width
            }
        &&& spec_model_conv_size(
            self.filters,
            self.input_width as int,
            self.input_height as int,
            self.filters.len() as int,
        ) <= usize::MAX
    }
}

impl View for Conv2D {
    type V = ConvModel;

    open spec fn view(&self) -> ConvModel {
        ConvModel {
            input_width: self.input_width,
            input_height: self.input_height,
            filters: self.filters@.map_values(|f: Filter| f@),
        }
    }
}

/// Abstract value of a [`FullyConnected`] layer.
pub ghost struct DenseModel {
    pub previous_layer_size: usize,
    pub weights: Seq<u64>,
    pub biases: Seq<u64>,
    pub activation_function: ActivationFunction,
}

impl DenseModel {
    /// Mirror of [`FullyConnected::wf`], with the matrix addressable.
    pub open spec fn wf(self) -> bool {
        &&& self.weights.len() == self.biases.len() * self.previous_layer_size
        &&& self.weights.len() <= usize::MAX
        &&& self.biases.len() <= usize::MAX
    }
}

impl View for FullyConnected {
    type V = DenseModel;

    open spec fn view(&self) -> DenseModel {
        DenseModel {
            previous_layer_size: self.previous_layer_size,
            weights: self.weights@,
            biases: self.biases@,
            activation_function: self.activation_function,
        }
    }
}

/// Abstract value of a [`LayerEnum`].
pub ghost enum LayerModel {
    Input(Input),
    FullyConnected(DenseModel),
    Pool2D(Pool2D),
    Conv2D(ConvModel),
}

impl LayerModel {
    pub open spec fn wf(self) -> bool {
        match self {
            LayerModel::Input(_) => true,
            LayerModel::FullyConnected(m) => m.wf(),
            LayerModel::Pool2D(p) => p.wf(),
            LayerModel::Conv2D(m) => m.wf(),
        }
    }
}

impl View for LayerEnum {
    type V = LayerModel;

    open spec fn view(&self) -> LayerModel {
        match self {
            LayerEnum::Input(layer) => LayerModel::Input(*layer),
            LayerEnum::FullyConnected(layer) => LayerModel::FullyConnected(layer@),
            LayerEnum::Pool2D(layer) => LayerModel::Pool2D(*layer),
            LayerEnum::Conv2D(layer) => LayerModel::Conv2D(layer@),
        }
    }
}

/// Abstract value of a [`Network`].
pub ghost struct NetworkModel {
    pub layers: Seq<LayerModel>,
    pub cost_function: CostFunction,
}

impl NetworkModel {
    pub open spec fn wf(self) -> bool {
        &&& self.layers.len() <= usize::MAX
        &&& forall|i: int| 0 <= i < self.layers.len() ==> (#[trigger] self.layers[i]).wf()
    }
}

impl View for Network {
    type V = NetworkModel;

    open spec fn view(&self) -> NetworkModel {
        NetworkModel {
            layers: self.layers@.map_values(|l: LayerEnum| l@),
            cost_function: self.cost_function,
        }
    }
}

// ---------------------------------------------------------------------------
// The byte format.
//
// All multi-byte integers are 64-bit little-endian; lengths and dimensions
// are written as such.  A network is its cost-function tag, its layer
// count, then its layers one after the other; each layer opens with a kind
// tag.  Scalars are written as their 64-bit encodings.
// ---------------------------------------------------------------------------

pub open spec fn spec_enc_u64(x: u64) -> Seq<u8> {
    spec_u64_to_le_bytes(x)
}

pub open spec fn spec_enc_scalars(values: Seq<u64>) -> Seq<u8>
    decreases values.len(),
{
    if values.len() == 0 {
        Seq::empty()
    } else {
        spec_enc_u64(values[0]) + spec_enc_scalars(values.drop_first())
    }
}

pub open spec fn spec_cost_tag(cost: CostFunction) -> u8 {
    match cost {
        CostFunction::MeanAbsoluteError => 0u8,
        CostFunction::MeanSquaredError => 1u8,
    }
}

pub open spec fn spec_pool_tag(pool: crate::pool::PoolType) -> u8 {
    match pool {
        crate::pool::PoolType::MAX => 0u8,
        crate::pool::PoolType::AVERAGE => 1u8,
    }
}

pub open spec fn spec_enc_act(act: ActivationFunction) -> Seq<u8> {
    match act {
        ActivationFunction::Input => seq![0u8],
        ActivationFunction::Sigmoid => seq![1u8],
        ActivationFunction::ReLU => seq![2u8],
        ActivationFunction::LeakyReLU(slope) => seq![3u8] + spec_enc_u64(slope),
        ActivationFunction::Tanh => seq![4u8],
    }
}

pub open spec fn spec_enc_filter(filter: FilterModel) -> Seq<u8> {
    spec_enc_u64(filter.rows as u64) + spec_enc_u64(filter.cols as u64) + spec_enc_scalars(
        filter.values,
    )
}

pub open spec fn spec_enc_filters(filters: Seq<FilterModel>) -> Seq<u8>
    decreases filters.len(),
{
    if filters.len() == 0 {
        Seq::empty()
    } else {
        spec_enc_filter(filters[0]) + spec_enc_filters(filters.drop_first())
    }
}

pub open spec fn spec_enc_layer(layer: LayerModel) -> Seq<u8> {
    match layer {
        LayerModel::Input(input) => seq![0u8] + spec_enc_u64(input.size as u64),
        LayerModel::FullyConnected(m) => seq![1u8] + spec_enc_act(m.activation_function)
            + spec_enc_u64(m.previous_layer_size as u64) + spec_enc_u64(m.biases.len() as u64)
            + spec_enc_scalars(m.biases) + spec_enc_scalars(m.weights),
        LayerModel::Pool2D(p) => seq![2u8, spec_pool_tag(p.pool_type)] + spec_enc_u64(
            p.input_width as u64,
        ) + spec_enc_u64(p.input_height as u64) + spec_enc_u64(p.kernel_width as u64)
            + spec_enc_u64(p.kernel_height as u64),
        LayerModel::Conv2D(m) => seq![3u8] + spec_enc_u64(m.input_width as u64) + spec_enc_u64(
            m.input_height as u64,
        ) + spec_enc_u64(m.filters.len() as u64) + spec_enc_filters(m.filters),
    }
}

pub open spec fn spec_enc_layers(layers: Seq<LayerModel>) -> Seq<u8>
    decreases layers.len(),
{
    if layers.len() == 0 {
        Seq::empty()
    } else {
        spec_enc_layer(layers[0]) + spec_enc_layers(layers.drop_first())
    }
}

pub open spec fn spec_enc_network(network: NetworkModel) -> Seq<u8> {
    seq![spec_cost_tag(network.cost_function)] + spec_enc_u64(network.layers.len() as u64)
        + spec_enc_layers(network.layers)
}

// ---------------------------------------------------------------------------
// Appending one element to a list appends its encoding to the list's.
// ---------------------------------------------------------------------------

proof fn lemma_enc_scalars_push(values: Seq<u64>, x: u64)
    ensures
        spec_enc_scalars(values.push(x)) == spec_enc_scalars(values) + spec_enc_u64(x),
    decreases values.len(),
{
    if values.len() == 0 {
        reveal_with_fuel(spec_enc_scalars, 3);
        assert(values.push(x)[0] == x);
        assert(values.push(x).drop_first() =~= Seq::<u64>::empty());
        assert(spec_enc_scalars(values.push(x)) =~= spec_enc_u64(x));
        assert(spec_enc_scalars(values) + spec_enc_u64(x) =~= spec_enc_u64(x));
    } else {
        lemma_enc_scalars_push(values.drop_first(), x);
        assert(values.push(x).drop_first() =~= values.drop_first().push(x));
        assert(values.push(x)[0] == values[0]);
        assert(spec_enc_u64(values[0]) + (spec_enc_scalars(values.drop_first()) + spec_enc_u64(x))
            =~= (spec_enc_u64(values[0]) + spec_enc_scalars(values.drop_first())) + spec_enc_u64(
            x,
        ));
    }
}

proof fn lemma_enc_filters_push(filters: Seq<FilterModel>, f: FilterModel)
    ensures
        spec_enc_filters(filters.push(f)) == spec_enc_filters(filters) + spec_enc_filter(f),
    decreases filters.len(),
{
    if filters.len() == 0 {
        reveal_with_fuel(spec_enc_filters, 3);
        assert(filters.push(f)[0] == f);
        assert(filters.push(f).drop_first() =~= Seq::<FilterModel>::empty());
        assert(spec_enc_filters(filters.push(f)) =~= spec_enc_filter(f));
        assert(spec_enc_filters(filters) + spec_enc_filter(f) =~= spec_enc_filter(f));
    } else {
        lemma_enc_filters_push(filters.drop_first(), f);
        assert(filters.push(f).drop_first() =~= filters.drop_first().push(f));
        assert(filters.push(f)[0] == filters[0]);
        assert(spec_enc_filter(filters[0]) + (spec_enc_filters(filters.drop_first())
            + spec_enc_filter(f)) =~= (spec_enc_filter(filters[0]) + spec_enc_filters(
            filters.drop_first(),
        )) + spec_enc_filter(f));
    }
}

proof fn lemma_enc_layers_push(layers: Seq<LayerModel>, l: LayerModel)
    ensures
        spec_enc_layers(layers.push(l)) == spec_enc_layers(layers) + spec_enc_layer(l),
    decreases layers.len(),
{
    if layers.len() == 0 {
        reveal_with_fuel(spec_enc_layers, 3);
        assert(layers.push(l)[0] == l);
        assert(layers.push(l).drop_first() =~= Seq::<LayerModel>::empty());
        assert(spec_enc_layers(layers.push(l)) =~= spec_enc_layer(l));
        assert(spec_enc_layers(layers) + spec_enc_layer(l) =~= spec_enc_layer(l));
    } else {
        lemma_enc_layers_push(layers.drop_first(), l);
        assert(layers.push(l).drop_first() =~= layers.drop_first().push(l));
        assert(layers.push(l)[0] == layers[0]);
        assert(spec_enc_layer(layers[0]) + (spec_enc_layers(layers.drop_first()) + spec_enc_layer(
            l,
        )) =~= (spec_enc_layer(layers[0]) + spec_enc_layers(layers.drop_first())) + spec_enc_layer(
            l,
        ));
    }
}

// ---------------------------------------------------------------------------
// Encoding.
// ---------------------------------------------------------------------------

fn encode_u64_into(out: &mut Vec<u8>, x: u64)
    ensures
        final(out)@ == old(out)@ + spec_enc_u64(x),
{
    let mut bytes = u64_to_le_bytes(x);
    out.append(&mut bytes);
}

fn encode_scalars_into(out: &mut Vec<u8>, values: &Vec<u64>)
    ensures
        final(out)@ == old(out)@ + spec_enc_scalars(values@),
{
    let ghost initial = out@;
    let mut i: usize = 0;
    proof {
        assert(values@.subrange(0, 0) =~= Seq::<u64>::empty());
        assert(out@ =~= initial + spec_enc_scalars(values@.subrange(0, 0)));
    }
    while i < values.len()
        invariant
            i <= values.len(),
            out@ == initial + spec_enc_scalars(values@.subrange(0, i as int)),
        decreases values.len() - i,
    {
        encode_u64_into(out, values[i]);
        proof {
            assert(values@.subrange(0, i as int + 1) =~= values@.subrange(0, i as int).push(
                values@[i as int],
            ));
            lemma_enc_scalars_push(values@.subrange(0, i as int), values@[i as int]);
            assert((initial + spec_enc_scalars(values@.subrange(0, i as int))) + spec_enc_u64(
                values@[i as int],
            ) =~= initial + spec_enc_scalars(values@.subrange(0, i as int + 1)));
        }
        i = i + 1;
    }
    proof {
        assert(values@.subrange(0, values@.len() as int) =~= values@);
    }
}

fn encode_act_into(out: &mut Vec<u8>, act: &ActivationFunction)
    ensures
        final(out)@ == old(out)@ + spec_enc_act(*act),
{
    match act {
        ActivationFunction::Input => {
            out.push(0u8);
            proof {
                assert(old(out)@.push(0u8) =~= old(out)@ + seq![0u8]);
            }
        },
        ActivationFunction::Sigmoid => {
            out.push(1u8);
            proof {
                assert(old(out)@.push(1u8) =~= old(out)@ + seq![1u8]);
            }
        },
        ActivationFunction::ReLU => {
            out.push(2u8);
            proof {
                assert(old(out)@.push(2u8) =~= old(out)@ + seq![2u8]);
            }
        },
        ActivationFunction::LeakyReLU(slope) => {
            out.push(3u8);
            encode_u64_into(out, *slope);
            proof {
                assert(old(out)@.push(3u8) + spec_enc_u64(*slope) =~= old(out)@ + (seq![3u8]
                    + spec_enc_u64(*slope)));
            }
        },
        ActivationFunction::Tanh => {
            out.push(4u8);
            proof {
                assert(old(out)@.push(4u8) =~= old(out)@ + seq![4u8]);
            }
        },
    }
}

fn encode_filter_into(out: &mut Vec<u8>, filter: &Filter)
    ensures
        final(out)@ == old(out)@ + spec_enc_filter(filter@),
{
    encode_u64_into(out, filter.rows as u64);
    encode_u64_into(out, filter.cols as u64);
    encode_scalars_into(out, &filter.values);
    proof {
        assert(((old(out)@ + spec_enc_u64(filter.rows as u64)) + spec_enc_u64(filter.cols as u64))
            + spec_enc_scalars(filter.values@) =~= old(out)@ + spec_enc_filter(filter@));
    }
}

fn encode_layer_into(out: &mut Vec<u8>, layer: &LayerEnum)
    ensures
        final(out)@ == old(out)@ + spec_enc_layer(layer@),
{
    match layer {
        LayerEnum::Input(input) => {
            out.push(0u8);
            encode_u64_into(out, input.size as u64);
            proof {
                assert(old(out)@.push(0u8) + spec_enc_u64(input.size as u64) =~= old(out)@ + (
                seq![0u8] + spec_enc_u64(input.size as u64)));
            }
        },
        LayerEnum::FullyConnected(dense) => {
            out.push(1u8);
            encode_act_into(out, &dense.activation_function);
            encode_u64_into(out, dense.previous_layer_size as u64);
            encode_u64_into(out, dense.biases.len() as u64);
            encode_scalars_into(out, &dense.biases);
            encode_scalars_into(out, &dense.weights);
            proof {
                assert(((((old(out)@.push(1u8) + spec_enc_act(dense.activation_function))
                    + spec_enc_u64(dense.previous_layer_size as u64)) + spec_enc_u64(
                    dense.biases.len() as u64,
                )) + spec_enc_scalars(dense.biases@)) + spec_enc_scalars(dense.weights@) =~= old(
                    out,
                )@ + spec_enc_layer(layer@));
            }
        },
        LayerEnum::Pool2D(pool) => {
            out.push(2u8);
            let tag: u8 = match pool.pool_type {
                crate::pool::PoolType::MAX => 0u8,
                crate::pool::PoolType::AVERAGE => 1u8,
            };
            out.push(tag);
            encode_u64_into(out, pool.input_width as u64);
            encode_u64_into(out, pool.input_height as u64);
            encode_u64_into(out, pool.kernel_width as u64);
            encode_u64_into(out, pool.kernel_height as u64);
            proof {
                assert(((((old(out)@.push(2u8).push(tag) + spec_enc_u64(pool.input_width as u64))
                    + spec_enc_u64(pool.input_height as u64)) + spec_enc_u64(
                    pool.kernel_width as u64,
                )) + spec_enc_u64(pool.kernel_height as u64)) =~= old(out)@ + spec_enc_layer(
                    layer@,
                ));
            }
        },
        LayerEnum::Conv2D(conv) => {
            out.push(3u8);
            encode_u64_into(out, conv.input_width as u64);
            encode_u64_into(out, conv.input_height as u64);
            encode_u64_into(out, conv.filters.len() as u64);
            let ghost before_filters = out@;
            let mut i: usize = 0;
            proof {
                assert(conv.filters@.map_values(|f: Filter| f@).subrange(0, 0)
                    =~= Seq::<FilterModel>::empty());
                assert(out@ =~= before_filters + spec_enc_filters(
                    conv.filters@.map_values(|f: Filter| f@).subrange(0, 0),
                ));
            }
            while i < conv.filters.len()
                invariant
                    i <= conv.filters.len(),
                    out@ == before_filters + spec_enc_filters(
                        conv.filters@.map_values(|f: Filter| f@).subrange(0, i as int),
                    ),
                decreases conv.filters.len() - i,
            {
                encode_filter_into(out, &conv.filters[i]);
                proof {
                    let models = conv.filters@.map_values(|f: Filter| f@);
                    assert(models.subrange(0, i as int + 1) =~= models.subrange(0, i as int).push(
                        models[i as int],
                    ));
                    lemma_enc_filters_push(models.subrange(0, i as int), models[i as int]);
                    assert((before_filters + spec_enc_filters(models.subrange(0, i as int)))
                        + spec_enc_filter(models[i as int]) =~= before_filters + spec_enc_filters(
                        models.subrange(0, i as int + 1),
                    ));
                }
                i = i + 1;
            }
            proof {
                let models = conv.filters@.map_values(|f: Filter| f@);
                assert(models.subrange(0, models.len() as int) =~= models);
                assert((((old(out)@.push(3u8) + spec_enc_u64(conv.input_width as u64))
                    + spec_enc_u64(conv.input_height as u64)) + spec_enc_u64(
                    conv.filters.len() as u64,
                )) + spec_enc_filters(models) =~= old(out)@ + spec_enc_layer(layer@));
            }
        },
    }
}

/// Encodes a network into a byte buffer, exactly as [`spec_enc_network`]
/// describes.
pub fn encode_network(network: &Network) -> (bytes: Vec<u8>)
    ensures
        bytes@ == spec_enc_network(network@),
{
    let mut out: Vec<u8> = Vec::new();
    let tag: u8 = match network.cost_function {
        CostFunction::MeanAbsoluteError => 0u8,
        CostFunction::MeanSquaredError => 1u8,
    };
    out.push(tag);
    encode_u64_into(&mut out, network.layers.len() as u64);
    let ghost before_layers = out@;
    let mut i: usize = 0;
    proof {
        assert(network.layers@.map_values(|l: LayerEnum| l@).subrange(0, 0)
            =~= Seq::<LayerModel>::empty());
        assert(out@ =~= before_layers + spec_enc_layers(
            network.layers@.map_values(|l: LayerEnum| l@).subrange(0, 0),
        ));
    }
    while i < network.layers.len()
        invariant
            i <= network.layers.len(),
            out@ == before_layers + spec_enc_layers(
                network.layers@.map_values(|l: LayerEnum| l@).subrange(0, i as int),
            ),
        decreases network.layers.len() - i,
    {
        encode_layer_into(&mut out, &network.layers[i]);
        proof {
            let models = network.layers@.map_values(|l: LayerEnum| l@);
            assert(models.subrange(0, i as int + 1) =~= models.subrange(0, i as int).push(
                models[i as int],
            ));
            lemma_enc_layers_push(models.subrange(0, i as int), models[i as int]);
            assert((before_layers + spec_enc_layers(models.subrange(0, i as int)))
                + spec_enc_layer(models[i as int]) =~= before_layers + spec_enc_layers(
                models.subrange(0, i as int + 1),
            ));
        }
        i = i + 1;
    }
    proof {
        let models = network.layers@.map_values(|l: LayerEnum| l@);
        assert(models.subrange(0, models.len() as int) =~= models);
        assert((Seq::<u8>::empty().push(tag) + spec_enc_u64(network.layers.len() as u64))
            + spec_enc_layers(models) =~= spec_enc_network(network@));
    }
    out
}


// ---------------------------------------------------------------------------
// Decoding: specification.
// ---------------------------------------------------------------------------

pub open spec fn spec_dec_u8(s: Seq<u8>, i: int) -> Option<(u8, int)> {
    if 0 <= i < s.len() {
        Some((s[i], i + 1))
    } else {
        None
    }
}

pub open spec fn spec_dec_u64(s: Seq<u8>, i: int) -> Option<(u64, int)> {
    if 0 <= i && i + 8 <= s.len() {
        Some((spec_u64_from_le_bytes(s.subrange(i, i + 8)), i + 8))
    } else {
        None
    }
}

pub open spec fn spec_dec_usize(s: Seq<u8>, i: int) -> Option<(usize, int)> {
    match spec_dec_u64(s, i) {
        Some((x, j)) => if x <= usize::MAX {
            Some((x as usize, j))
        } else {
            None
        },
        None => None,
    }
}

pub open spec fn spec_dec_scalars(s: Seq<u8>, i: int, count: int) -> Option<(Seq<u64>, int)>
    decreases count,
{
    if count <= 0 {
        Some((Seq::empty(), i))
    } else {
        match spec_dec_u64(s, i) {
            Some((x, j)) => match spec_dec_scalars(s, j, count - 1) {
                Some((rest, end)) => Some((seq![x] + rest, end)),
                None => None,
            },
            None => None,
        }
    }
}

pub open spec fn spec_dec_act(s: Seq<u8>, i: int) -> Option<(ActivationFunction, int)> {
    match spec_dec_u8(s, i) {
        Some((tag, j)) => if tag == 0 {
            Some((ActivationFunction::Input, j))
        } else if tag == 1 {
            Some((ActivationFunction::Sigmoid, j))
        } else if tag == 2 {
            Some((ActivationFunction::ReLU, j))
        } else if tag == 3 {
            match spec_dec_u64(s, j) {
                Some((slope, k)) => Some((ActivationFunction::LeakyReLU(slope), k)),
                None => None,
            }
        } else if tag == 4 {
            Some((ActivationFunction::Tanh, j))
        } else {
            None
        },
        None => None,
    }
}

pub open spec fn spec_dec_filter(s: Seq<u8>, i: int) -> Option<(FilterModel, int)> {
    match spec_dec_usize(s, i) {
        Some((rows, j1)) => match spec_dec_usize(s, j1) {
            Some((cols, j2)) => if rows * cols <= usize::MAX {
                match spec_dec_scalars(s, j2, rows * cols) {
                    Some((values, j3)) => Some((FilterModel { rows, cols, values }, j3)),
                    None => None,
                }
            } else {
                None
            },
            None => None,
        },
        None => None,
    }
}

pub open spec fn spec_dec_filters(s: Seq<u8>, i: int, count: int) -> Option<
    (Seq<FilterModel>, int),
>
    decreases count,
{
    if count <= 0 {
        Some((Seq::empty(), i))
    } else {
        match spec_dec_filter(s, i) {
            Some((filter, j)) => match spec_dec_filters(s, j, count - 1) {
                Some((rest, end)) => Some((seq![filter] + rest, end)),
                None => None,
            },
            None => None,
        }
    }
}

/// A filter grid fits inside a `width` by `height` input.
pub open spec fn spec_filter_fits(filter: FilterModel, width: int, height: int) -> bool {
    0 < filter.rows <= height && 0 < filter.cols <= width
}

pub open spec fn spec_filters_fit(filters: Seq<FilterModel>, width: int, height: int) -> bool {
    forall|i: int|
        0 <= i < filters.len() ==> #[trigger] spec_filter_fits(filters[i], width, height)
}

pub open spec fn spec_dec_layer(s: Seq<u8>, i: int) -> Option<(LayerModel, int)> {
    match spec_dec_u8(s, i) {
        Some((tag, j)) => if tag == 0 {
            match spec_dec_usize(s, j) {
                Some((size, end)) => Some((LayerModel::Input(Input { size }), end)),
                None => None,
            }
        } else if tag == 1 {
            match spec_dec_act(s, j) {
                Some((act, j1)) => match spec_dec_usize(s, j1) {
                    Some((prev, j2)) => match spec_dec_usize(s, j2) {
                        Some((rows, j3)) => if rows * prev <= usize::MAX {
                            match spec_dec_scalars(s, j3, rows as int) {
                                Some((biases, j4)) => match spec_dec_scalars(
                                    s,
                                    j4,
                                    rows * prev,
                                ) {
                                    Some((weights, end)) => Some(
                                        (
                                            LayerModel::FullyConnected(
                                                DenseModel {
                                                    previous_layer_size: prev,
                                                    weights,
                                                    biases,
                                                    activation_function: act,
                                                },
                                            ),
                                            end,
                                        ),
                                    ),
                                    None => None,
                                },
                                None => None,
                            }
                        } else {
                            None
                        },
                        None => None,
                    },
                    None => None,
                },
                None => None,
            }
        } else if tag == 2 {
            match spec_dec_u8(s, j) {
                Some((pool_tag, j1)) => if pool_tag <= 1 {
                    let pool_type = if pool_tag == 0 {
                        crate::pool::PoolType::MAX
                    } else {
                        crate::pool::PoolType::AVERAGE
                    };
                    match spec_dec_usize(s, j1) {
                        Some((w, j2)) => match spec_dec_usize(s, j2) {
                            Some((h, j3)) => match spec_dec_usize(s, j3) {
                                Some((kw, j4)) => match spec_dec_usize(s, j4) {
                                    Some((kh, end)) => if kw > 0 && kh > 0 && w as int % kw as int
                                        == 0 && h as int % kh as int == 0 && (w as int
                                        / kw as int) * (h as int / kh as int) <= usize::MAX {
                                        Some(
                                            (
                                                LayerModel::Pool2D(
                                                    Pool2D {
                                                        pool_type,
                                                        input_width: w,
                                                        input_height: h,
                                                        kernel_width: kw,
                                                        kernel_height: kh,
                                                    },
                                                ),
                                                end,
                                            ),
                                        )
                                    } else {
                                        None
                                    },
                                    None => None,
                                },
                                None => None,
                            },
                            None => None,
                        },
                        None => None,
                    }
                } else {
                    None
                },
                None => None,
            }
        } else if tag == 3 {
            match spec_dec_usize(s, j) {
                Some((w, j1)) => match spec_dec_usize(s, j1) {
                    Some((h, j2)) => match spec_dec_usize(s, j2) {
                        Some((count, j3)) => match spec_dec_filters(s, j3, count as int) {
                            Some((filters, end)) => if spec_filters_fit(
                                filters,
                                w as int,
                                h as int,
                            ) && spec_model_conv_size(filters, w as int, h as int, filters.len() as int)
                                <= usize::MAX {
                                Some(
                                    (
                                        LayerModel::Conv2D(
                                            ConvModel {
                                                input_width: w,
                                                input_height: h,
                                                filters,
                                            },
                                        ),
                                        end,
                                    ),
                                )
                            } else {
                                None
                            },
                            None => None,
                        },
                        None => None,
                    },
                    None => None,
                },
                None => None,
            }
        } else {
            None
        },
        None => None,
    }
}

pub open spec fn spec_dec_layers(s: Seq<u8>, i: int, count: int) -> Option<(Seq<LayerModel>, int)>
    decreases count,
{
    if count <= 0 {
        Some((Seq::empty(), i))
    } else {
        match spec_dec_layer(s, i) {
            Some((layer, j)) => match spec_dec_layers(s, j, count - 1) {
                Some((rest, end)) => Some((seq![layer] + rest, end)),
                None => None,
            },
            None => None,
        }
    }
}

/// What a byte buffer decodes to: the cost-function tag, the layer count,
/// then the layers, with nothing left over.
pub open spec fn spec_dec_network(s: Seq<u8>) -> Option<NetworkModel> {
    match spec_dec_u8(s, 0) {
        Some((tag, i)) => if tag <= 1 {
            let cost_function = if tag == 0 {
                CostFunction::MeanAbsoluteError
            } else {
                CostFunction::MeanSquaredError
            };
            match spec_dec_usize(s, i) {
                Some((count, j)) => match spec_dec_layers(s, j, count as int) {
                    Some((layers, end)) => if end == s.len() {
                        Some(NetworkModel { layers, cost_function })
                    } else {
                        None
                    },
                    None => None,
                },
                None => None,
            }
        } else {
            None
        },
        None => None,
    }
}


// ---------------------------------------------------------------------------
// Decoding: execution.
// ---------------------------------------------------------------------------

/// `a * b` when it is representable.
fn checked_mul_usize(a: usize, b: usize) -> (result: Option<usize>)
    ensures
        match result {
            Some(product) => product == a * b && a * b <= usize::MAX,
            None => a * b > usize::MAX,
        },
{
    if b == 0 {
        proof {
            assert(a * 0 == 0) by (nonlinear_arith);
        }
        Some(0)
    } else if a > usize::MAX / b {
        proof {
            vstd::arithmetic::div_mod::lemma_fundamental_div_mod(usize::MAX as int, b as int);
            vstd::arithmetic::div_mod::lemma_mod_bound(usize::MAX as int, b as int);
            assert(a * b > usize::MAX) by (nonlinear_arith)
                requires
                    b >= 1,
                    a > (usize::MAX as int) / (b as int),
                    usize::MAX == (b as int) * ((usize::MAX as int) / (b as int)) + (usize::MAX
                        as int) % (b as int),
                    ((usize::MAX as int) % (b as int)) < b,
            ;
        }
        None
    } else {
        proof {
            vstd::arithmetic::div_mod::lemma_fundamental_div_mod(usize::MAX as int, b as int);
            vstd::arithmetic::div_mod::lemma_mod_bound(usize::MAX as int, b as int);
            assert(a * b <= usize::MAX) by (nonlinear_arith)
                requires
                    b >= 1,
                    a <= (usize::MAX as int) / (b as int),
                    usize::MAX == (b as int) * ((usize::MAX as int) / (b as int)) + (usize::MAX
                        as int) % (b as int),
                    ((usize::MAX as int) % (b as int)) >= 0,
            ;
        }
        Some(a * b)
    }
}

fn decode_u8(data: &Vec<u8>, pos: usize) -> (result: Option<(u8, usize)>)
    ensures
        match result {
            Some((x, end)) => spec_dec_u8(data@, pos as int) == Some((x, end as int)),
            None => spec_dec_u8(data@, pos as int) is None,
        },
{
    if pos < data.len() {
        Some((data[pos], pos + 1))
    } else {
        None
    }
}

fn decode_u64(data: &Vec<u8>, pos: usize) -> (result: Option<(u64, usize)>)
    ensures
        match result {
            Some((x, end)) => spec_dec_u64(data@, pos as int) == Some((x, end as int)),
            None => spec_dec_u64(data@, pos as int) is None,
        },
{
    if data.len() >= 8 && pos <= data.len() - 8 {
        let bytes = vstd::slice::slice_subrange(data.as_slice(), pos, pos + 8);
        let x = u64_from_le_bytes(bytes);
        Some((x, pos + 8))
    } else {
        None
    }
}

fn decode_usize(data: &Vec<u8>, pos: usize) -> (result: Option<(usize, usize)>)
    ensures
        match result {
            Some((x, end)) => spec_dec_usize(data@, pos as int) == Some((x, end as int)),
            None => spec_dec_usize(data@, pos as int) is None,
        },
{
    match decode_u64(data, pos) {
        Some((x, end)) => {
            if x <= usize::MAX as u64 {
                Some((x as usize, end))
            } else {
                None
            }
        },
        None => None,
    }
}

fn decode_scalars(data: &Vec<u8>, pos: usize, count: usize) -> (result: Option<(Vec<u64>, usize)>)
    ensures
        match result {
            Some((values, end)) => spec_dec_scalars(data@, pos as int, count as int) == Some(
                (values@, end as int),
            ) && values@.len() == count,
            None => spec_dec_scalars(data@, pos as int, count as int) is None,
        },
{
    let mut values: Vec<u64> = Vec::new();
    let mut cur = pos;
    let mut k: usize = 0;
    proof {
        assert(values@ + Seq::<u64>::empty() =~= values@);
    }
    while k < count
        invariant
            k <= count,
            values.len() == k,
            match spec_dec_scalars(data@, cur as int, (count - k) as int) {
                Some((rest, end)) => spec_dec_scalars(data@, pos as int, count as int) == Some(
                    (values@ + rest, end),
                ),
                None => spec_dec_scalars(data@, pos as int, count as int) is None,
            },
        decreases count - k,
    {
        match decode_u64(data, cur) {
            Some((x, next)) => {
                proof {
                    match spec_dec_scalars(data@, next as int, (count - k - 1) as int) {
                        Some((rest, end)) => {
                            assert(spec_dec_scalars(data@, cur as int, (count - k) as int)
                                == Some((seq![x] + rest, end)));
                            assert(values@ + (seq![x] + rest) =~= values@.push(x) + rest);
                        },
                        None => {},
                    }
                }
                values.push(x);
                cur = next;
                k = k + 1;
            },
            None => {
                return None;
            },
        }
    }
    proof {
        assert(values@ + Seq::<u64>::empty() =~= values@);
    }
    Some((values, cur))
}

fn decode_act(data: &Vec<u8>, pos: usize) -> (result: Option<(ActivationFunction, usize)>)
    ensures
        match result {
            Some((act, end)) => spec_dec_act(data@, pos as int) == Some((act, end as int)),
            None => spec_dec_act(data@, pos as int) is None,
        },
{
    match decode_u8(data, pos) {
        Some((tag, j)) => {
            if tag == 0 {
                Some((ActivationFunction::Input, j))
            } else if tag == 1 {
                Some((ActivationFunction::Sigmoid, j))
            } else if tag == 2 {
                Some((ActivationFunction::ReLU, j))
            } else if tag == 3 {
                match decode_u64(data, j) {
                    Some((slope, end)) => Some((ActivationFunction::LeakyReLU(slope), end)),
                    None => None,
                }
            } else if tag == 4 {
                Some((ActivationFunction::Tanh, j))
            } else {
                None
            }
        },
        None => None,
    }
}

fn decode_filter(data: &Vec<u8>, pos: usize) -> (result: Option<(Filter, usize)>)
    ensures
        match result {
            Some((filter, end)) => spec_dec_filter(data@, pos as int) == Some(
                (filter@, end as int),
            ) && filter.wf(),
            None => spec_dec_filter(data@, pos as int) is None,
        },
{
    match decode_usize(data, pos) {
        Some((rows, j1)) => match decode_usize(data, j1) {
            Some((cols, j2)) => match checked_mul_usize(rows, cols) {
                Some(count) => match decode_scalars(data, j2, count) {
                    Some((values, end)) => Some((Filter { rows, cols, values }, end)),
                    None => None,
                },
                None => None,
            },
            None => None,
        },
        None => None,
    }
}

fn decode_filters(data: &Vec<u8>, pos: usize, count: usize) -> (result: Option<
    (Vec<Filter>, usize),
>)
    ensures
        match result {
            Some((filters, end)) => spec_dec_filters(data@, pos as int, count as int) == Some(
                (filters@.map_values(|f: Filter| f@), end as int),
            ) && filters@.len() == count && forall|i: int|
                0 <= i < filters@.len() ==> (#[trigger] filters@[i]).wf(),
            None => spec_dec_filters(data@, pos as int, count as int) is None,
        },
{
    let mut filters: Vec<Filter> = Vec::new();
    let mut cur = pos;
    let mut k: usize = 0;
    proof {
        assert(filters@.map_values(|f: Filter| f@) + Seq::<FilterModel>::empty()
            =~= filters@.map_values(|f: Filter| f@));
    }
    while k < count
        invariant
            k <= count,
            filters.len() == k,
            forall|i: int| 0 <= i < filters@.len() ==> (#[trigger] filters@[i]).wf(),
            match spec_dec_filters(data@, cur as int, (count - k) as int) {
                Some((rest, end)) => spec_dec_filters(data@, pos as int, count as int) == Some(
                    (filters@.map_values(|f: Filter| f@) + rest, end),
                ),
                None => spec_dec_filters(data@, pos as int, count as int) is None,
            },
        decreases count - k,
    {
        match decode_filter(data, cur) {
            Some((filter, next)) => {
                proof {
                    let models = filters@.map_values(|f: Filter| f@);
                    let models_after = filters@.push(filter).map_values(|f: Filter| f@);
                    assert(models_after =~= models.push(filter@));
                    match spec_dec_filters(data@, next as int, (count - k - 1) as int) {
                        Some((rest, end)) => {
                            assert(spec_dec_filters(data@, cur as int, (count - k) as int)
                                == Some((seq![filter@] + rest, end)));
                            assert(models + (seq![filter@] + rest) =~= models.push(filter@)
                                + rest);
                        },
                        None => {},
                    }
                }
                filters.push(filter);
                cur = next;
                k = k + 1;
            },
            None => {
                return None;
            },
        }
    }
    proof {
        assert(filters@.map_values(|f: Filter| f@) + Seq::<FilterModel>::empty()
            =~= filters@.map_values(|f: Filter| f@));
    }
    Some((filters, cur))
}

/// Prefix sums of model output-map lengths grow with the prefix, for
/// filters that fit the input grid.
proof fn lemma_model_conv_size_mono(filters: Seq<FilterModel>, width: int, height: int, a: int, b: int)
    requires
        0 <= a <= b <= filters.len(),
        spec_filters_fit(filters, width, height),
    ensures
        spec_model_conv_size(filters, width, height, a) <= spec_model_conv_size(
            filters,
            width,
            height,
            b,
        ),
    decreases b - a,
{
    if a < b {
        lemma_model_conv_size_mono(filters, width, height, a, b - 1);
        assert(spec_filter_fits(filters[b - 1], width, height));
        assert((width - filters[b - 1].cols + 1) * (height - filters[b - 1].rows + 1) >= 0)
            by (nonlinear_arith)
            requires
                filters[b - 1].cols <= width,
                filters[b - 1].rows <= height,
        ;
    }
}

/// The exec-level and model-level output-length sums agree.
proof fn lemma_conv_size_model(filters: Seq<Filter>, width: int, height: int, n: int)
    requires
        0 <= n <= filters.len(),
    ensures
        crate::conv2d::spec_conv_size_prefix(filters, width, height, n) == spec_model_conv_size(
            filters.map_values(|f: Filter| f@),
            width,
            height,
            n,
        ),
    decreases n,
{
    if n > 0 {
        lemma_conv_size_model(filters, width, height, n - 1);
    }
}

fn decode_layer(data: &Vec<u8>, pos: usize) -> (result: Option<(LayerEnum, usize)>)
    ensures
        match result {
            Some((layer, end)) => spec_dec_layer(data@, pos as int) == Some(
                (layer@, end as int),
            ) && layer.wf(),
            None => spec_dec_layer(data@, pos as int) is None,
        },
{
    match decode_u8(data, pos) {
        Some((tag, j)) => {
            if tag == 0 {
                match decode_usize(data, j) {
                    Some((size, end)) => Some((LayerEnum::Input(Input { size }), end)),
                    None => None,
                }
            } else if tag == 1 {
                match decode_act(data, j) {
                    Some((act, j1)) => match decode_usize(data, j1) {
                        Some((prev, j2)) => match decode_usize(data, j2) {
                            Some((rows, j3)) => match checked_mul_usize(rows, prev) {
                                Some(weight_count) => match decode_scalars(data, j3, rows) {
                                    Some((biases, j4)) => match decode_scalars(
                                        data,
                                        j4,
                                        weight_count,
                                    ) {
                                        Some((weights, end)) => Some(
                                            (
                                                LayerEnum::FullyConnected(
                                                    FullyConnected {
                                                        previous_layer_size: prev,
                                                        weights,
                                                        biases,
                                                        activation_function: act,
                                                    },
                                                ),
                                                end,
                                            ),
                                        ),
                                        None => None,
                                    },
                                    None => None,
                                },
                                None => None,
                            },
                            None => None,
                        },
                        None => None,
                    },
                    None => None,
                }
            } else if tag == 2 {
                match decode_u8(data, j) {
                    Some((pool_tag, j1)) => {
                        if pool_tag > 1 {
                            return None;
                        }
                        let pool_type = if pool_tag == 0 {
                            crate::pool::PoolType::MAX
                        } else {
                            crate::pool::PoolType::AVERAGE
                        };
                        match decode_usize(data, j1) {
                            Some((w, j2)) => match decode_usize(data, j2) {
                                Some((h, j3)) => match decode_usize(data, j3) {
                                    Some((kw, j4)) => match decode_usize(data, j4) {
                                        Some((kh, end)) => {
                                            if kw > 0 && kh > 0 && w % kw == 0 && h % kh == 0 {
                                                match checked_mul_usize(w / kw, h / kh) {
                                                    Some(_) => Some(
                                                        (
                                                            LayerEnum::Pool2D(
                                                                Pool2D {
                                                                    pool_type,
                                                                    input_width: w,
                                                                    input_height: h,
                                                                    kernel_width: kw,
                                                                    kernel_height: kh,
                                                                },
                                                            ),
                                                            end,
                                                        ),
                                                    ),
                                                    None => None,
                                                }
                                            } else {
                                                None
                                            }
                                        },
                                        None => None,
                                    },
                                    None => None,
                                },
                                None => None,
                            },
                            None => None,
                        }
                    },
                    None => None,
                }
            } else if tag == 3 {
                match decode_usize(data, j) {
                    Some((w, j1)) => match decode_usize(data, j1) {
                        Some((h, j2)) => match decode_usize(data, j2) {
                            Some((count, j3)) => match decode_filters(data, j3, count) {
                                Some((filters, end)) => decode_conv_checked(
                                    data,
                                    pos,
                                    w,
                                    h,
                                    filters,
                                    end,
                                ),
                                None => None,
                            },
                            None => None,
                        },
                        None => None,
                    },
                    None => None,
                }
            } else {
                None
            }
        },
        None => None,
    }
}

/// Validates decoded convolution filters against the input grid and builds
/// the layer; mirrors the fit and size conditions of [`spec_dec_layer`].
#[verifier::loop_isolation(false)]
fn decode_conv_checked(
    data: &Vec<u8>,
    pos: usize,
    w: usize,
    h: usize,
    filters: Vec<Filter>,
    end: usize,
) -> (result: Option<(LayerEnum, usize)>)
    requires
        forall|i: int| 0 <= i < filters@.len() ==> (#[trigger] filters@[i]).wf(),
        ({
            let models = filters@.map_values(|f: Filter| f@);
            spec_dec_layer(data@, pos as int) == (if spec_filters_fit(models, w as int, h as int)
                && spec_model_conv_size(models, w as int, h as int, models.len() as int)
                <= usize::MAX {
                Some(
                    (
                        LayerModel::Conv2D(
                            ConvModel { input_width: w, input_height: h, filters: models },
                        ),
                        end as int,
                    ),
                )
            } else {
                None::<(LayerModel, int)>
            })
        }),
    ensures
        match result {
            Some((layer, end2)) => spec_dec_layer(data@, pos as int) == Some(
                (layer@, end2 as int),
            ) && layer.wf(),
            None => spec_dec_layer(data@, pos as int) is None,
        },
{
    let ghost models = filters@.map_values(|f: Filter| f@);
    let mut i: usize = 0;
    while i < filters.len()
        invariant
            models == filters@.map_values(|f: Filter| f@),
            i <= filters.len(),
            forall|t: int| 0 <= t < i ==> spec_filter_fits(#[trigger] models[t], w as int, h as int),
        decreases filters.len() - i,
    {
        let filter = &filters[i];
        if filter.rows == 0 || filter.rows > h || filter.cols == 0 || filter.cols > w {
            proof {
                assert(!spec_filter_fits(models[i as int], w as int, h as int));
            }
            return None;
        }
        i = i + 1;
    }
    proof {
        assert(spec_filters_fit(models, w as int, h as int));
    }
    let mut total: usize = 0;
    let mut k: usize = 0;
    while k < filters.len()
        invariant
            models == filters@.map_values(|f: Filter| f@),
            spec_filters_fit(models, w as int, h as int),
            k <= filters.len(),
            total == spec_model_conv_size(models, w as int, h as int, k as int),
        decreases filters.len() - k,
    {
        let filter = &filters[k];
        proof {
            assert(spec_filter_fits(models[k as int], w as int, h as int));
        }
        let term = match checked_mul_usize(w - filter.cols + 1, h - filter.rows + 1) {
            Some(term) => term,
            None => {
                proof {
                    lemma_model_conv_size_mono(models, w as int, h as int, k as int + 1, models.len() as int);
                }
                return None;
            },
        };
        if total > usize::MAX - term {
            proof {
                lemma_model_conv_size_mono(models, w as int, h as int, k as int + 1, models.len() as int);
            }
            return None;
        }
        total = total + term;
        k = k + 1;
    }
    let conv = Conv2D { input_width: w, input_height: h, filters };
    proof {
        lemma_conv_size_model(conv.filters@, w as int, h as int, models.len() as int);
        assert forall|t: int| 0 <= t < conv.filters.len() implies {
            &&& (#[trigger] conv.filters[t]).wf()
            &&& 0 < conv.filters[t].rows <= conv.input_height
            &&& 0 < conv.filters[t].cols <= conv.input_width
        } by {
            assert(spec_filter_fits(models[t], w as int, h as int));
            assert(models[t] == conv.filters[t]@);
        }
    }
    Some((LayerEnum::Conv2D(conv), end))
}

fn decode_layers(data: &Vec<u8>, pos: usize, count: usize) -> (result: Option<
    (Vec<LayerEnum>, usize),
>)
    ensures
        match result {
            Some((layers, end)) => spec_dec_layers(data@, pos as int, count as int) == Some(
                (layers@.map_values(|l: LayerEnum| l@), end as int),
            ) && forall|i: int| 0 <= i < layers@.len() ==> (#[trigger] layers@[i]).wf(),
            None => spec_dec_layers(data@, pos as int, count as int) is None,
        },
{
    let mut layers: Vec<LayerEnum> = Vec::new();
    let mut cur = pos;
    let mut k: usize = 0;
    proof {
        assert(layers@.map_values(|l: LayerEnum| l@) + Seq::<LayerModel>::empty()
            =~= layers@.map_values(|l: LayerEnum| l@));
    }
    while k < count
        invariant
            k <= count,
            layers.len() == k,
            forall|i: int| 0 <= i < layers@.len() ==> (#[trigger] layers@[i]).wf(),
            match spec_dec_layers(data@, cur as int, (count - k) as int) {
                Some((rest, end)) => spec_dec_layers(data@, pos as int, count as int) == Some(
                    (layers@.map_values(|l: LayerEnum| l@) + rest, end),
                ),
                None => spec_dec_layers(data@, pos as int, count as int) is None,
            },
        decreases count - k,
    {
        match decode_layer(data, cur) {
            Some((layer, next)) => {
                proof {
                    let models = layers@.map_values(|l: LayerEnum| l@);
                    let models_after = layers@.push(layer).map_values(|l: LayerEnum| l@);
                    assert(models_after =~= models.push(layer@));
                    match spec_dec_layers(data@, next as int, (count - k - 1) as int) {
                        Some((rest, end)) => {
                            assert(spec_dec_layers(data@, cur as int, (count - k) as int)
                                == Some((seq![layer@] + rest, end)));
                            assert(models + (seq![layer@] + rest) =~= models.push(layer@)
                                + rest);
                        },
                        None => {},
                    }
                }
                layers.push(layer);
                cur = next;
                k = k + 1;
            },
            None => {
                return None;
            },
        }
    }
    proof {
        assert(layers@.map_values(|l: LayerEnum| l@) + Seq::<LayerModel>::empty()
            =~= layers@.map_values(|l: LayerEnum| l@));
    }
    Some((layers, cur))
}

/// Decodes a network from a byte buffer, exactly as [`spec_dec_network`]
/// describes; a decoded network satisfies every layer's shape invariant.
pub fn decode_network(data: &Vec<u8>) -> (result: Option<Network>)
    ensures
        match result {
            Some(network) => spec_dec_network(data@) == Some(network@) && network.wf(),
            None => spec_dec_network(data@) is None,
        },
{
    match decode_u8(data, 0) {
        Some((tag, i)) => {
            if tag > 1 {
                return None;
            }
            let cost_function = if tag == 0 {
                CostFunction::MeanAbsoluteError
            } else {
                CostFunction::MeanSquaredError
            };
            match decode_usize(data, i) {
                Some((count, j)) => match decode_layers(data, j, count) {
                    Some((layers, end)) => {
                        if end == data.len() {
                            Some(Network { layers, cost_function })
                        } else {
                            None
                        }
                    },
                    None => None,
                },
                None => None,
            }
        },
        None => None,
    }
}


// ---------------------------------------------------------------------------
// Round trip: decoding an encoding gives the network back.
// ---------------------------------------------------------------------------

/// A concatenation sitting inside a buffer splits into its two parts.
proof fn lemma_subrange_split(s: Seq<u8>, i: int, a: Seq<u8>, b: Seq<u8>)
    requires
        0 <= i,
        i + a.len() + b.len() <= s.len(),
        s.subrange(i, i + a.len() + b.len()) == a + b,
    ensures
        s.subrange(i, i + a.len()) == a,
        s.subrange(i + a.len(), i + a.len() + b.len()) == b,
{
    assert forall|j: int| 0 <= j < a.len() implies s.subrange(i, i + a.len() as int)[j] == a[j] by {
        assert(s.subrange(i, i + a.len() + b.len())[j] == (a + b)[j]);
    }
    assert(s.subrange(i, i + a.len() as int) =~= a);
    assert forall|j: int| 0 <= j < b.len() implies s.subrange(
        i + a.len(),
        i + a.len() + b.len(),
    )[j] == b[j] by {
        assert(s.subrange(i, i + a.len() + b.len())[a.len() + j] == (a + b)[a.len() + j]);
        assert(s.subrange(i, i + a.len() + b.len())[a.len() + j] == s[i + a.len() + j]);
        assert(s.subrange(i + a.len(), i + a.len() + b.len())[j] == s[i + a.len() + j]);
        assert((a + b)[a.len() + j] == b[j]);
    }
    assert(s.subrange(i + a.len(), i + a.len() + b.len()) =~= b);
}

proof fn lemma_enc_u64_len(x: u64)
    ensures
        spec_enc_u64(x).len() == 8,
        spec_u64_from_le_bytes(spec_enc_u64(x)) == x,
{
    lemma_auto_spec_u64_to_from_le_bytes();
}

proof fn lemma_dec_enc_u64(s: Seq<u8>, i: int, x: u64)
    requires
        0 <= i,
        i + 8 <= s.len(),
        s.subrange(i, i + 8) == spec_enc_u64(x),
    ensures
        spec_dec_u64(s, i) == Some((x, i + 8)),
{
    lemma_enc_u64_len(x);
}

proof fn lemma_dec_enc_usize(s: Seq<u8>, i: int, x: usize)
    requires
        0 <= i,
        i + 8 <= s.len(),
        s.subrange(i, i + 8) == spec_enc_u64(x as u64),
    ensures
        spec_dec_usize(s, i) == Some((x, i + 8)),
{
    lemma_dec_enc_u64(s, i, x as u64);
}

proof fn lemma_enc_scalars_len(values: Seq<u64>)
    ensures
        spec_enc_scalars(values).len() == 8 * values.len(),
    decreases values.len(),
{
    if values.len() > 0 {
        lemma_enc_scalars_len(values.drop_first());
        lemma_enc_u64_len(values[0]);
    }
}

proof fn lemma_dec_enc_scalars(s: Seq<u8>, i: int, values: Seq<u64>)
    requires
        0 <= i,
        i + 8 * values.len() <= s.len(),
        s.subrange(i, i + 8 * values.len()) == spec_enc_scalars(values),
    ensures
        spec_dec_scalars(s, i, values.len() as int) == Some((values, i + 8 * values.len())),
    decreases values.len(),
{
    if values.len() == 0 {
        assert(values =~= Seq::<u64>::empty());
    } else {
        let head = spec_enc_u64(values[0]);
        let tail = spec_enc_scalars(values.drop_first());
        lemma_enc_u64_len(values[0]);
        lemma_enc_scalars_len(values.drop_first());
        lemma_subrange_split(s, i, head, tail);
        lemma_dec_enc_u64(s, i, values[0]);
        lemma_dec_enc_scalars(s, i + 8, values.drop_first());
        assert(seq![values[0]] + values.drop_first() =~= values);
    }
}

proof fn lemma_dec_enc_act(s: Seq<u8>, i: int, act: ActivationFunction)
    requires
        0 <= i,
        i + spec_enc_act(act).len() <= s.len(),
        s.subrange(i, i + spec_enc_act(act).len()) == spec_enc_act(act),
    ensures
        spec_dec_act(s, i) == Some((act, i + spec_enc_act(act).len())),
{
    match act {
        ActivationFunction::LeakyReLU(slope) => {
            lemma_enc_u64_len(slope);
            lemma_subrange_split(s, i, seq![3u8], spec_enc_u64(slope));
            assert(s[i] == s.subrange(i, i + 1)[0]);
            lemma_dec_enc_u64(s, i + 1, slope);
        },
        _ => {
            assert(s[i] == s.subrange(i, i + 1)[0]);
        },
    }
}

proof fn lemma_enc_filter_len(filter: FilterModel)
    ensures
        spec_enc_filter(filter).len() == 16 + 8 * filter.values.len(),
{
    lemma_enc_u64_len(filter.rows as u64);
    lemma_enc_u64_len(filter.cols as u64);
    lemma_enc_scalars_len(filter.values);
}

proof fn lemma_dec_enc_filter(s: Seq<u8>, i: int, filter: FilterModel)
    requires
        filter.wf(),
        0 <= i,
        i + spec_enc_filter(filter).len() <= s.len(),
        s.subrange(i, i + spec_enc_filter(filter).len()) == spec_enc_filter(filter),
    ensures
        spec_dec_filter(s, i) == Some((filter, i + spec_enc_filter(filter).len())),
{
    let rows_bytes = spec_enc_u64(filter.rows as u64);
    let cols_bytes = spec_enc_u64(filter.cols as u64);
    let values_bytes = spec_enc_scalars(filter.values);
    lemma_enc_u64_len(filter.rows as u64);
    lemma_enc_u64_len(filter.cols as u64);
    lemma_enc_scalars_len(filter.values);
    assert(spec_enc_filter(filter) =~= (rows_bytes + cols_bytes) + values_bytes);
    lemma_subrange_split(s, i, rows_bytes + cols_bytes, values_bytes);
    lemma_subrange_split(s, i, rows_bytes, cols_bytes);
    lemma_dec_enc_usize(s, i, filter.rows);
    lemma_dec_enc_usize(s, i + 8, filter.cols);
    lemma_dec_enc_scalars(s, i + 16, filter.values);
}

proof fn lemma_dec_enc_filters(s: Seq<u8>, i: int, filters: Seq<FilterModel>)
    requires
        forall|t: int| 0 <= t < filters.len() ==> (#[trigger] filters[t]).wf(),
        0 <= i,
        i + spec_enc_filters(filters).len() <= s.len(),
        s.subrange(i, i + spec_enc_filters(filters).len()) == spec_enc_filters(filters),
    ensures
        spec_dec_filters(s, i, filters.len() as int) == Some(
            (filters, i + spec_enc_filters(filters).len()),
        ),
    decreases filters.len(),
{
    if filters.len() == 0 {
        assert(filters =~= Seq::<FilterModel>::empty());
    } else {
        let head = spec_enc_filter(filters[0]);
        let tail = spec_enc_filters(filters.drop_first());
        lemma_subrange_split(s, i, head, tail);
        lemma_dec_enc_filter(s, i, filters[0]);
        assert(forall|t: int|
            0 <= t < filters.drop_first().len() ==> (#[trigger] filters.drop_first()[t])
                == filters[t + 1]);
        lemma_dec_enc_filters(s, i + head.len(), filters.drop_first());
        assert(seq![filters[0]] + filters.drop_first() =~= filters);
    }
}

proof fn lemma_dec_enc_layer(s: Seq<u8>, i: int, layer: LayerModel)
    requires
        layer.wf(),
        0 <= i,
        i + spec_enc_layer(layer).len() <= s.len(),
        s.subrange(i, i + spec_enc_layer(layer).len()) == spec_enc_layer(layer),
    ensures
        spec_dec_layer(s, i) == Some((layer, i + spec_enc_layer(layer).len())),
{
    match layer {
        LayerModel::Input(input) => {
            lemma_enc_u64_len(input.size as u64);
            lemma_subrange_split(s, i, seq![0u8], spec_enc_u64(input.size as u64));
            assert(s[i] == s.subrange(i, i + 1)[0]);
            lemma_dec_enc_usize(s, i + 1, input.size);
        },
        LayerModel::FullyConnected(m) => {
            let act_bytes = spec_enc_act(m.activation_function);
            let prev_bytes = spec_enc_u64(m.previous_layer_size as u64);
            let rows_bytes = spec_enc_u64(m.biases.len() as u64);
            let biases_bytes = spec_enc_scalars(m.biases);
            let weights_bytes = spec_enc_scalars(m.weights);
            lemma_enc_u64_len(m.previous_layer_size as u64);
            lemma_enc_u64_len(m.biases.len() as u64);
            lemma_enc_scalars_len(m.biases);
            lemma_enc_scalars_len(m.weights);
            let head = seq![1u8] + act_bytes + prev_bytes + rows_bytes + biases_bytes;
            assert(spec_enc_layer(layer) =~= head + weights_bytes);
            lemma_subrange_split(s, i, head, weights_bytes);
            let head2 = seq![1u8] + act_bytes + prev_bytes + rows_bytes;
            assert(head =~= head2 + biases_bytes);
            lemma_subrange_split(s, i, head2, biases_bytes);
            let head3 = seq![1u8] + act_bytes + prev_bytes;
            assert(head2 =~= head3 + rows_bytes);
            lemma_subrange_split(s, i, head3, rows_bytes);
            let head4 = seq![1u8] + act_bytes;
            assert(head3 =~= head4 + prev_bytes);
            lemma_subrange_split(s, i, head4, prev_bytes);
            assert(head4 =~= seq![1u8] + act_bytes);
            lemma_subrange_split(s, i, seq![1u8], act_bytes);
            assert(s[i] == s.subrange(i, i + 1)[0]);
            lemma_dec_enc_act(s, i + 1, m.activation_function);
            lemma_dec_enc_usize(s, i + 1 + act_bytes.len(), m.previous_layer_size);
            let rows_at = i + 1 + act_bytes.len() + 8;
            assert(m.biases.len() <= usize::MAX);
            lemma_dec_enc_usize_nat(s, rows_at, m.biases.len() as int);
            lemma_dec_enc_scalars(s, rows_at + 8, m.biases);
            lemma_dec_enc_scalars(s, rows_at + 8 + 8 * m.biases.len(), m.weights);
        },
        LayerModel::Pool2D(p) => {
            let w_bytes = spec_enc_u64(p.input_width as u64);
            let h_bytes = spec_enc_u64(p.input_height as u64);
            let kw_bytes = spec_enc_u64(p.kernel_width as u64);
            let kh_bytes = spec_enc_u64(p.kernel_height as u64);
            lemma_enc_u64_len(p.input_width as u64);
            lemma_enc_u64_len(p.input_height as u64);
            lemma_enc_u64_len(p.kernel_width as u64);
            lemma_enc_u64_len(p.kernel_height as u64);
            let tags = seq![2u8, spec_pool_tag(p.pool_type)];
            assert(spec_enc_layer(layer) =~= (((tags + w_bytes) + h_bytes) + kw_bytes) + kh_bytes);
            lemma_subrange_split(s, i, ((tags + w_bytes) + h_bytes) + kw_bytes, kh_bytes);
            lemma_subrange_split(s, i, (tags + w_bytes) + h_bytes, kw_bytes);
            lemma_subrange_split(s, i, tags + w_bytes, h_bytes);
            lemma_subrange_split(s, i, tags, w_bytes);
            assert(s[i] == s.subrange(i, i + 2)[0]);
            assert(s[i + 1] == s.subrange(i, i + 2)[1]);
            lemma_dec_enc_usize(s, i + 2, p.input_width);
            lemma_dec_enc_usize(s, i + 10, p.input_height);
            lemma_dec_enc_usize(s, i + 18, p.kernel_width);
            lemma_dec_enc_usize(s, i + 26, p.kernel_height);
        },
        LayerModel::Conv2D(m) => {
            let w_bytes = spec_enc_u64(m.input_width as u64);
            let h_bytes = spec_enc_u64(m.input_height as u64);
            let count_bytes = spec_enc_u64(m.filters.len() as u64);
            let filters_bytes = spec_enc_filters(m.filters);
            lemma_enc_u64_len(m.input_width as u64);
            lemma_enc_u64_len(m.input_height as u64);
            lemma_enc_u64_len(m.filters.len() as u64);
            let head = ((seq![3u8] + w_bytes) + h_bytes) + count_bytes;
            assert(spec_enc_layer(layer) =~= head + filters_bytes);
            lemma_subrange_split(s, i, head, filters_bytes);
            lemma_subrange_split(s, i, (seq![3u8] + w_bytes) + h_bytes, count_bytes);
            lemma_subrange_split(s, i, seq![3u8] + w_bytes, h_bytes);
            lemma_subrange_split(s, i, seq![3u8], w_bytes);
            assert(s[i] == s.subrange(i, i + 1)[0]);
            lemma_dec_enc_usize(s, i + 1, m.input_width);
            lemma_dec_enc_usize(s, i + 9, m.input_height);
            assert(m.filters.len() <= usize::MAX);
            lemma_dec_enc_usize_nat(s, i + 17, m.filters.len() as int);
            lemma_dec_enc_filters(s, i + 25, m.filters);
        },
    }
}

/// Variant of [`lemma_dec_enc_usize`] for a sequence length already known
/// to fit in `usize`.
proof fn lemma_dec_enc_usize_nat(s: Seq<u8>, i: int, n: int)
    requires
        0 <= n <= usize::MAX,
        0 <= i,
        i + 8 <= s.len(),
        s.subrange(i, i + 8) == spec_enc_u64(n as u64),
    ensures
        spec_dec_usize(s, i) == Some((n as usize, i + 8)),
{
    lemma_dec_enc_u64(s, i, n as u64);
}

proof fn lemma_dec_enc_layers(s: Seq<u8>, i: int, layers: Seq<LayerModel>)
    requires
        forall|t: int| 0 <= t < layers.len() ==> (#[trigger] layers[t]).wf(),
        0 <= i,
        i + spec_enc_layers(layers).len() <= s.len(),
        s.subrange(i, i + spec_enc_layers(layers).len()) == spec_enc_layers(layers),
    ensures
        spec_dec_layers(s, i, layers.len() as int) == Some(
            (layers, i + spec_enc_layers(layers).len()),
        ),
    decreases layers.len(),
{
    if layers.len() == 0 {
        assert(layers =~= Seq::<LayerModel>::empty());
    } else {
        let head = spec_enc_layer(layers[0]);
        let tail = spec_enc_layers(layers.drop_first());
        lemma_subrange_split(s, i, head, tail);
        lemma_dec_enc_layer(s, i, layers[0]);
        assert(forall|t: int|
            0 <= t < layers.drop_first().len() ==> (#[trigger] layers.drop_first()[t]) == layers[t
                + 1]);
        lemma_dec_enc_layers(s, i + head.len(), layers.drop_first());
        assert(seq![layers[0]] + layers.drop_first() =~= layers);
    }
}

/// Round trip: decoding the encoding of a well-formed network model yields
/// exactly that model — the layer chain, every weight, bias and filter
/// value bit for bit, and the cost-function tag.
pub proof fn lemma_network_codec_round_trip(network: NetworkModel)
    requires
        network.wf(),
    ensures
        spec_dec_network(spec_enc_network(network)) == Some(network),
{
    let s = spec_enc_network(network);
    let tag = spec_cost_tag(network.cost_function);
    let count_bytes = spec_enc_u64(network.layers.len() as u64);
    let layers_bytes = spec_enc_layers(network.layers);
    lemma_enc_u64_len(network.layers.len() as u64);
    assert(s =~= (seq![tag] + count_bytes) + layers_bytes);
    assert(s.subrange(0, s.len() as int) =~= s);
    lemma_subrange_split(s, 0, seq![tag] + count_bytes, layers_bytes);
    lemma_subrange_split(s, 0, seq![tag], count_bytes);
    assert(s[0] == s.subrange(0, 1)[0]);
    lemma_dec_enc_usize_nat(s, 1, network.layers.len() as int);
    lemma_dec_enc_layers(s, 9, network.layers);
}


/// A well-formed network is well-formed as a model: the executable shape
/// invariants carry over to the abstract value.
pub proof fn lemma_network_wf_model(network: Network)
    requires
        network.wf(),
    ensures
        network@.wf(),
{
    vstd::std_specs::vec::axiom_spec_len(&network.layers);
    assert forall|i: int| 0 <= i < network@.layers.len() implies (
    #[trigger] network@.layers[i]).wf() by {
        assert(network.layers[i].wf());
        match network.layers[i] {
            LayerEnum::Input(_) => {},
            LayerEnum::FullyConnected(dense) => {
                vstd::std_specs::vec::axiom_spec_len(&dense.weights);
                vstd::std_specs::vec::axiom_spec_len(&dense.biases);
            },
            LayerEnum::Pool2D(_) => {},
            LayerEnum::Conv2D(conv) => {
                vstd::std_specs::vec::axiom_spec_len(&conv.filters);
                lemma_conv_size_model(
                    conv.filters@,
                    conv.input_width as int,
                    conv.input_height as int,
                    conv.filters@.len() as int,
                );
                assert forall|t: int| 0 <= t < conv@.filters.len() implies {
                    &&& (#[trigger] conv@.filters[t]).wf()
                    &&& 0 < conv@.filters[t].rows <= conv@.input_height
                    &&& 0 < conv@.filters[t].cols <= conv@.input_width
                } by {
                    assert(conv.filters[t].wf());
                    assert(conv@.filters[t] == conv.filters[t]@);
                    vstd::std_specs::vec::axiom_spec_len(&conv.filters[t].values);
                }
            },
        }
    }
}

/// Round trip for a concrete network: decoding what [`encode_network`]
/// produces yields a network with the same abstract value — the same layer
/// chain, parameters bit for bit, and cost function.
pub proof fn lemma_encode_decode_network(network: Network)
    requires
        network.wf(),
    ensures
        spec_dec_network(spec_enc_network(network@)) == Some(network@),
{
    lemma_network_wf_model(network);
    lemma_network_codec_round_trip(network@);
}

} // verus!
