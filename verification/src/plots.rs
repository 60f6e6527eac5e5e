//! The postprocessing functions by name: their options (axis, field), their
//! names and qualified names, and the plot names derived from them.
use vstd::prelude::*;
use crate::postprocess::{opt_view, plot_info_matches, PlotInfo, PostFnKind};
use crate::text::{cat3, str_eq};

verus! {

/// A coordinate axis.
#[derive(Debug, Clone, Copy, PartialEq, Eq)]
pub enum Axis {
    X,
    Y,
    Z,
}

/// A quantity of a snapshot that can be plotted.
#[derive(Debug, Clone, Copy, PartialEq, Eq)]
pub enum FieldIdentifier {
    HpAbundance,
    PhotonRates,
    Density,
}

/// Text that names no axis or no field.
#[derive(Debug, Clone, PartialEq, Eq)]
pub enum NameError {
    InvalidAxis(String),
    InvalidField(String),
}

/// The name of an axis on the command line and in file names.
pub open spec fn axis_text(a: Axis) -> Seq<char> {
    match a {
        Axis::X => "x"@,
        Axis::Y => "y"@,
        Axis::Z => "z"@,
    }
}

/// The name of a field in file names.
pub open spec fn field_text(f: FieldIdentifier) -> Seq<char> {
    match f {
        FieldIdentifier::HpAbundance => "hpabundance"@,
        FieldIdentifier::PhotonRates => "photonrates"@,
        FieldIdentifier::Density => "density"@,
    }
}

impl Axis {
    /// The axis named `s` (`x`, `y` or `z`).
    pub fn parse(s: &str) -> (r: Result<Axis, NameError>)
        ensures
            s@ == "x"@ <==> r == Ok::<Axis, NameError>(Axis::X),
            s@ == "y"@ <==> r == Ok::<Axis, NameError>(Axis::Y),
            s@ == "z"@ <==> r == Ok::<Axis, NameError>(Axis::Z),
            r matches Err(e) ==> e matches NameError::InvalidAxis(t) && t@ == s@,
    {
        proof {
            reveal_strlit("x");
            reveal_strlit("y");
            reveal_strlit("z");
            assert("x"@[0] != "y"@[0] && "x"@[0] != "z"@[0] && "y"@[0] != "z"@[0]);
        }
        if str_eq(s, "x") {
            Ok(Axis::X)
        } else if str_eq(s, "y") {
            Ok(Axis::Y)
        } else if str_eq(s, "z") {
            Ok(Axis::Z)
        } else {
            Err(NameError::InvalidAxis(String::from_str(s)))
        }
    }

    /// The axis's name (what `Display` writes).
    pub fn to_text(&self) -> (r: &'static str)
        ensures
            r@ == axis_text(*self),
    {
        match self {
            Axis::X => "x",
            Axis::Y => "y",
            Axis::Z => "z",
        }
    }
}

impl FieldIdentifier {
    /// The field named `s`: `abundance` or `density`.
    pub fn parse(s: &str) -> (r: Result<FieldIdentifier, NameError>)
        ensures
            s@ == "abundance"@ <==> r == Ok::<FieldIdentifier, NameError>(FieldIdentifier::HpAbundance),
            s@ == "density"@ <==> r == Ok::<FieldIdentifier, NameError>(FieldIdentifier::Density),
            r != Ok::<FieldIdentifier, NameError>(FieldIdentifier::PhotonRates),
            r matches Err(e) ==> e matches NameError::InvalidField(t) && t@ == s@,
    {
        proof {
            reveal_strlit("abundance");
            reveal_strlit("density");
            assert("abundance"@[0] != "density"@[0]);
        }
        if str_eq(s, "abundance") {
            Ok(FieldIdentifier::HpAbundance)
        } else if str_eq(s, "density") {
            Ok(FieldIdentifier::Density)
        } else {
            Err(NameError::InvalidField(String::from_str(s)))
        }
    }

    /// The field's name (what `Display` writes).
    pub fn to_text(&self) -> (r: &'static str)
        ensures
            r@ == field_text(*self),
    {
        match self {
            FieldIdentifier::HpAbundance => "hpabundance",
            FieldIdentifier::PhotonRates => "photonrates",
            FieldIdentifier::Density => "density",
        }
    }
}

impl std::str::FromStr for Axis {
    type Err = NameError;

    fn from_str(s: &str) -> (r: Result<Axis, NameError>)
        ensures
            s@ == "x"@ <==> r == Ok::<Axis, NameError>(Axis::X),
            s@ == "y"@ <==> r == Ok::<Axis, NameError>(Axis::Y),
            s@ == "z"@ <==> r == Ok::<Axis, NameError>(Axis::Z),
            r matches Err(e) ==> e matches NameError::InvalidAxis(t) && t@ == s@,
    {
        Axis::parse(s)
    }
}

impl std::str::FromStr for FieldIdentifier {
    type Err = NameError;

    fn from_str(s: &str) -> (r: Result<FieldIdentifier, NameError>)
        ensures
            s@ == "abundance"@ <==> r == Ok::<FieldIdentifier, NameError>(FieldIdentifier::HpAbundance),
            s@ == "density"@ <==> r == Ok::<FieldIdentifier, NameError>(FieldIdentifier::Density),
            r != Ok::<FieldIdentifier, NameError>(FieldIdentifier::PhotonRates),
            r matches Err(e) ==> e matches NameError::InvalidField(t) && t@ == s@,
    {
        FieldIdentifier::parse(s)
    }
}

/// A postprocessing function with a name.
pub trait Named {
    /// The function's name.
    spec fn name_view(&self) -> Seq<char>;

    /// The function's name with its options.
    spec fn qualified_name_view(&self) -> Seq<char>;

    fn name(&self) -> (r: &'static str)
        ensures
            r@ == self.name_view(),
    ;

    fn qualified_name(&self) -> (r: String)
        ensures
            r@ == self.qualified_name_view(),
    ;

    /// The names of the plot that this function draws for the simulation
    /// named `sim_name` and its snapshot named `snap_name` where given.
    fn get_plot_info(
        &self,
        sim_name: Option<&str>,
        snap_name: Option<&str>,
        plot_template_name: Option<&str>,
    ) -> (r: PlotInfo)
        ensures
            plot_info_matches(
                r,
                self.name_view(),
                self.qualified_name_view(),
                opt_view(plot_template_name),
                opt_view(sim_name),
                opt_view(snap_name),
            ),
    {
        let q = self.qualified_name();
        PlotInfo::new(self.name(), q.as_str(), plot_template_name, sim_name, snap_name)
    }
}

/// The convergence of the sweep per iteration.
pub struct ConvergenceFn {}

/// The expansion of an ionized region of R-type.
pub struct RTypeExpansionFn {}

/// The expansion of an ionized region of D-type.
pub struct DTypeExpansionFn {}

/// The average ionization over time.
pub struct IonizationFn;

/// Run times against core numbers, per value of a parameter where one is given.
pub struct ScalingFn {
    pub quotient_parameter: Option<String>,
    pub ignore_failed: bool,
}

/// A slice through a snapshot, orthogonal to an axis, coloured by a field.
pub struct SliceFn {
    pub field: FieldIdentifier,
    pub axis: Axis,
}

impl Named for ConvergenceFn {
    open spec fn name_view(&self) -> Seq<char> {
        "convergence"@
    }

    open spec fn qualified_name_view(&self) -> Seq<char> {
        "convergence"@
    }

    fn name(&self) -> (r: &'static str) {
        "convergence"
    }

    fn qualified_name(&self) -> (r: String) {
        String::from_str(self.name())
    }
}

impl Named for IonizationFn {
    open spec fn name_view(&self) -> Seq<char> {
        "ionization"@
    }

    open spec fn qualified_name_view(&self) -> Seq<char> {
        "ionization"@
    }

    fn name(&self) -> (r: &'static str) {
        "ionization"
    }

    fn qualified_name(&self) -> (r: String) {
        String::from_str(self.name())
    }
}

impl Named for ScalingFn {
    open spec fn name_view(&self) -> Seq<char> {
        "scaling"@
    }

    open spec fn qualified_name_view(&self) -> Seq<char> {
        "scaling"@
    }

    fn name(&self) -> (r: &'static str) {
        "scaling"
    }

    fn qualified_name(&self) -> (r: String) {
        String::from_str(self.name())
    }
}

impl Named for RTypeExpansionFn {
    open spec fn name_view(&self) -> Seq<char> {
        "rtype"@
    }

    open spec fn qualified_name_view(&self) -> Seq<char> {
        "rtype"@
    }

    fn name(&self) -> (r: &'static str) {
        "rtype"
    }

    fn qualified_name(&self) -> (r: String) {
        String::from_str(self.name())
    }
}

impl Named for DTypeExpansionFn {
    open spec fn name_view(&self) -> Seq<char> {
        "dtype"@
    }

    open spec fn qualified_name_view(&self) -> Seq<char> {
        "dtype"@
    }

    fn name(&self) -> (r: &'static str) {
        "dtype"
    }

    fn qualified_name(&self) -> (r: String) {
        String::from_str(self.name())
    }
}

impl Named for SliceFn {
    open spec fn name_view(&self) -> Seq<char> {
        "slice"@
    }

    /// `slice_{axis}_{field}`.
    open spec fn qualified_name_view(&self) -> Seq<char> {
        "slice"@ + "_"@ + axis_text(self.axis) + "_"@ + field_text(self.field)
    }

    fn name(&self) -> (r: &'static str) {
        "slice"
    }

    fn qualified_name(&self) -> (r: String) {
        let a = cat3(self.name(), "_", self.axis.to_text());
        cat3(a.as_str(), "_", self.field.to_text())
    }
}

impl RTypeExpansionFn {
    /// Runs on the whole simulation set.
    pub fn kind(&self) -> (r: PostFnKind)
        ensures
            r == PostFnKind::SimSet,
    {
        PostFnKind::SimSet
    }
}

impl DTypeExpansionFn {
    /// Runs on the whole simulation set.
    pub fn kind(&self) -> (r: PostFnKind)
        ensures
            r == PostFnKind::SimSet,
    {
        PostFnKind::SimSet
    }
}

/// A plot that the interface offers, by the command line that draws it.
pub trait Plot {
    spec fn command_view(&self) -> Seq<char>;

    fn get_command(&self) -> (r: String)
        ensures
            r@ == self.command_view(),
    ;
}

/// A slice of the temperature along the z axis.
pub struct Slice {}

impl Plot for Slice {
    open spec fn command_view(&self) -> Seq<char> {
        "slice --axis z --field Temperature"@
    }

    fn get_command(&self) -> (r: String) {
        String::from_str("slice --axis z --field Temperature")
    }
}

} // verus!
