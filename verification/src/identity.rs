use vstd::prelude::*;

verus! {

/// Identifies one plugin UI surface: a window label plus, for surfaces that
/// embed a dedicated webview, a webview label. Immutable once created.
pub struct PluginIdentity {
    pub window_label: String,
    pub webview_label: Option<String>,
}

impl PluginIdentity {
    /// The mathematical key of a subject: both labels as character sequences.
    pub open spec fn key(&self) -> (Seq<char>, Option<Seq<char>>) {
        (
            self.window_label@,
            match self.webview_label {
                Some(w) => Some(w@),
                None => None,
            },
        )
    }

    /// Builds a subject from the shape the command surface hands over, where
    /// an empty webview label means the surface has no dedicated webview.
    pub fn from_labels(window: String, webview: String) -> (r: PluginIdentity)
        ensures
            r.key() == (window@, if webview@.len() == 0 { None::<Seq<char>> } else { Some(webview@) }),
    {
        if webview.as_str().is_empty() {
            PluginIdentity { window_label: window, webview_label: None }
        } else {
            PluginIdentity { window_label: window, webview_label: Some(webview) }
        }
    }

    /// Whether two subjects name the same plugin surface.
    pub fn matches(&self, other: &PluginIdentity) -> (r: bool)
        ensures
            r == (self.key() == other.key()),
    {
        if !self.window_label.eq(&other.window_label) {
            return false;
        }
        match (&self.webview_label, &other.webview_label) {
            (Some(a), Some(b)) => a.eq(b),
            (None, None) => true,
            _ => false,
        }
    }
}

} // verus!
