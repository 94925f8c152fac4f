//! The graphics APIs ReShade can hook and the files each one installs.
use vstd::prelude::*;
use crate::text::{chars_of, lower, lower_vec, string_of, trim, trim_str};

verus! {

#[derive(Debug, Clone, Copy, PartialEq, Eq, Structural)]
pub enum GraphicsApi {
    Dx9,
    Dx11,
    Dx12,
    OpenGL,
    Vulkan,
}

#[derive(Debug, Clone)]
pub struct GraphicsApiInfo {
    pub id: String,
    pub name: String,
    pub description: String,
    pub files: Vec<String>,
}

/// The id an API is stored under.
pub open spec fn api_id(a: GraphicsApi) -> Seq<char> {
    match a {
        GraphicsApi::Dx9 => "dx9"@,
        GraphicsApi::Dx11 => "dx11"@,
        GraphicsApi::Dx12 => "dx12"@,
        GraphicsApi::OpenGL => "opengl"@,
        GraphicsApi::Vulkan => "vulkan"@,
    }
}

/// The API a trimmed, lower-cased id names (with its accepted aliases).
pub open spec fn api_of_id(s: Seq<char>) -> Option<GraphicsApi> {
    if s == "dx9"@ {
        Some(GraphicsApi::Dx9)
    } else if s == "dx11"@ || s == "dx10_11"@ || s == "d3d11"@ {
        Some(GraphicsApi::Dx11)
    } else if s == "dx12"@ || s == "dxgi"@ {
        Some(GraphicsApi::Dx12)
    } else if s == "opengl"@ || s == "ogl"@ {
        Some(GraphicsApi::OpenGL)
    } else if s == "vulkan"@ || s == "vk"@ {
        Some(GraphicsApi::Vulkan)
    } else {
        None
    }
}

/// How a stored id is read: trimmed and lower-cased (ASCII), then matched.
pub open spec fn parse_api(id: Seq<char>) -> Option<GraphicsApi> {
    api_of_id(lower(trim(id)))
}

pub open spec fn api_name(a: GraphicsApi) -> Seq<char> {
    match a {
        GraphicsApi::Dx9 => "DirectX 9"@,
        GraphicsApi::Dx11 => "DirectX 10/11"@,
        GraphicsApi::Dx12 => "DirectX 12"@,
        GraphicsApi::OpenGL => "OpenGL"@,
        GraphicsApi::Vulkan => "Vulkan"@,
    }
}

pub open spec fn api_description(a: GraphicsApi) -> Seq<char> {
    match a {
        GraphicsApi::Dx9 => "Старые игры. Устанавливает d3d9.dll."@,
        GraphicsApi::Dx11 => "Классический D3D11 — d3d11.dll. Старые UE4, многие инди. Если не работает — попробуйте DX12."@,
        GraphicsApi::Dx12 => "DX12 и DXGI-игры — dxgi.dll. Обычно UE5 и современные AAA."@,
        GraphicsApi::OpenGL => "OpenGL-рендер — opengl32.dll."@,
        GraphicsApi::Vulkan => "Vulkan implicit layer: ReShade64.dll + ReShade64.json (реестр, как в официальном setup)."@,
    }
}

/// The files an API installs into the game directory.
pub open spec fn api_files(a: GraphicsApi) -> Seq<Seq<char>> {
    match a {
        GraphicsApi::Dx9 => seq!["d3d9.dll"@],
        GraphicsApi::Dx11 => seq!["d3d11.dll"@],
        GraphicsApi::Dx12 => seq!["dxgi.dll"@],
        GraphicsApi::OpenGL => seq!["opengl32.dll"@],
        GraphicsApi::Vulkan => seq!["ReShade64.dll"@, "ReShade64.json"@],
    }
}

pub open spec fn all_apis() -> Seq<GraphicsApi> {
    seq![
        GraphicsApi::Dx9,
        GraphicsApi::Dx11,
        GraphicsApi::Dx12,
        GraphicsApi::OpenGL,
        GraphicsApi::Vulkan,
    ]
}

/// A file name that some API installs.
pub open spec fn known_install_file(name: Seq<char>) -> bool {
    exists|a: GraphicsApi| #[trigger] api_files(a).contains(name)
}

pub open spec fn strs_view(v: Seq<&str>) -> Seq<Seq<char>> {
    v.map_values(|s: &str| s@)
}

impl GraphicsApi {
    /// Every API, in menu order.
    pub fn all() -> (r: Vec<GraphicsApi>)
        ensures
            r@ == all_apis(),
    {
        let r = vec![
            GraphicsApi::Dx9,
            GraphicsApi::Dx11,
            GraphicsApi::Dx12,
            GraphicsApi::OpenGL,
            GraphicsApi::Vulkan,
        ];
        assert(r@ =~= all_apis());
        r
    }

    /// Reads an API id: trimmed, case-insensitive, with aliases (`dxgi`,
    /// `vk`, ...); an unknown id is refused with its normalized form.
    pub fn from_str_id(id: &str) -> (r: Result<GraphicsApi, String>)
        ensures
            match parse_api(id@) {
                Some(a) => r == Ok::<GraphicsApi, String>(a),
                None => r matches Err(m) && m@ == "Неизвестный графический API: "@ + lower(
                    trim(id@),
                ),
            },
    {
        let t = trim_str(id);
        let l = lower_vec(&t);
        proof {
            reveal_strlit("dx9");
            reveal_strlit("dx11");
            reveal_strlit("dx10_11");
            reveal_strlit("d3d11");
            reveal_strlit("dx12");
            reveal_strlit("dxgi");
            reveal_strlit("opengl");
            reveal_strlit("ogl");
            reveal_strlit("vulkan");
            reveal_strlit("vk");
        }
        let s = string_of(&l);
        let ss = s.as_str();
        if crate::text::str_eq(ss, "dx9") {
            Ok(GraphicsApi::Dx9)
        } else if crate::text::str_eq(ss, "dx11") || crate::text::str_eq(ss, "dx10_11")
            || crate::text::str_eq(ss, "d3d11") {
            Ok(GraphicsApi::Dx11)
        } else if crate::text::str_eq(ss, "dx12") || crate::text::str_eq(ss, "dxgi") {
            Ok(GraphicsApi::Dx12)
        } else if crate::text::str_eq(ss, "opengl") || crate::text::str_eq(ss, "ogl") {
            Ok(GraphicsApi::OpenGL)
        } else if crate::text::str_eq(ss, "vulkan") || crate::text::str_eq(ss, "vk") {
            Ok(GraphicsApi::Vulkan)
        } else {
            let mut m = chars_of("Неизвестный графический API: ");
            crate::text::append_all(&mut m, &l);
            Err(string_of(&m))
        }
    }

    /// The id the API is stored under.
    pub fn as_str(self) -> (r: &'static str)
        ensures
            r@ == api_id(self),
    {
        match self {
            GraphicsApi::Dx9 => "dx9",
            GraphicsApi::Dx11 => "dx11",
            GraphicsApi::Dx12 => "dx12",
            GraphicsApi::OpenGL => "opengl",
            GraphicsApi::Vulkan => "vulkan",
        }
    }

    pub fn display_name(self) -> (r: &'static str)
        ensures
            r@ == api_name(self),
    {
        match self {
            GraphicsApi::Dx9 => "DirectX 9",
            GraphicsApi::Dx11 => "DirectX 10/11",
            GraphicsApi::Dx12 => "DirectX 12",
            GraphicsApi::OpenGL => "OpenGL",
            GraphicsApi::Vulkan => "Vulkan",
        }
    }

    pub fn description(self) -> (r: &'static str)
        ensures
            r@ == api_description(self),
    {
        match self {
            GraphicsApi::Dx9 => "Старые игры. Устанавливает d3d9.dll.",
            GraphicsApi::Dx11 => "Классический D3D11 — d3d11.dll. Старые UE4, многие инди. Если не работает — попробуйте DX12.",
            GraphicsApi::Dx12 => "DX12 и DXGI-игры — dxgi.dll. Обычно UE5 и современные AAA.",
            GraphicsApi::OpenGL => "OpenGL-рендер — opengl32.dll.",
            GraphicsApi::Vulkan => "Vulkan implicit layer: ReShade64.dll + ReShade64.json (реестр, как в официальном setup).",
        }
    }

    /// The files the API installs into the game directory.
    pub fn files_to_install(self) -> (r: Vec<&'static str>)
        ensures
            strs_view(r@) == api_files(self),
    {
        let r = match self {
            GraphicsApi::Dx9 => vec!["d3d9.dll"],
            GraphicsApi::Dx11 => vec!["d3d11.dll"],
            GraphicsApi::Dx12 => vec!["dxgi.dll"],
            GraphicsApi::OpenGL => vec!["opengl32.dll"],
            GraphicsApi::Vulkan => vec!["ReShade64.dll", "ReShade64.json"],
        };
        assert(strs_view(r@) =~= api_files(self));
        r
    }
}

/// Reading the id an API is stored under gives the API back.
pub proof fn api_id_roundtrip(a: GraphicsApi)
    ensures
        parse_api(api_id(a)) == Some(a),
{
    reveal_strlit("dx9");
    reveal_strlit("dx11");
    reveal_strlit("dx10_11");
    reveal_strlit("d3d11");
    reveal_strlit("dx12");
    reveal_strlit("dxgi");
    reveal_strlit("opengl");
    reveal_strlit("ogl");
    reveal_strlit("vulkan");
    reveal_strlit("vk");
    let s = api_id(a);
    assert(lower(trim(s)) =~= s) by {
        crate::text::lemma_trim_id(s);
        assert(trim(s) == s);
        assert(lower(s) =~= s);
    }
}

/// Known proxy or layer file names an install marker may list.
pub fn is_known_install_filename(name: &str) -> (r: bool)
    ensures
        r == known_install_file(name@),
{
    let apis = GraphicsApi::all();
    let mut i: usize = 0;
    while i < apis.len()
        invariant
            i <= apis.len(),
            apis@ == all_apis(),
            forall|k: int| 0 <= k < i ==> !(#[trigger] api_files(apis@[k])).contains(name@),
        decreases apis.len() - i,
    {
        let files = apis[i].files_to_install();
        let mut j: usize = 0;
        while j < files.len()
            invariant
                j <= files.len(),
                strs_view(files@) == api_files(apis@[i as int]),
                forall|k: int| 0 <= k < j ==> (#[trigger] files@[k])@ != name@,
            decreases files.len() - j,
        {
            if crate::text::str_eq(files[j], name) {
                assert(strs_view(files@)[j as int] == name@);
                assert(api_files(apis@[i as int]).contains(name@));
                return true;
            }
            j += 1;
        }
        assert(!api_files(apis@[i as int]).contains(name@)) by {
            if api_files(apis@[i as int]).contains(name@) {
                let k = choose|k: int|
                    0 <= k < api_files(apis@[i as int]).len() && api_files(apis@[i as int])[k]
                        == name@;
                assert(files@[k]@ == strs_view(files@)[k]);
            }
        }
        i += 1;
    }
    assert forall|a: GraphicsApi| !(#[trigger] api_files(a)).contains(name@) by {
        match a {
            GraphicsApi::Dx9 => assert(apis@[0] == a),
            GraphicsApi::Dx11 => assert(apis@[1] == a),
            GraphicsApi::Dx12 => assert(apis@[2] == a),
            GraphicsApi::OpenGL => assert(apis@[3] == a),
            GraphicsApi::Vulkan => assert(apis@[4] == a),
        }
    }
    false
}

pub open spec fn info_matches(info: GraphicsApiInfo, a: GraphicsApi) -> bool {
    &&& info.id@ == api_id(a)
    &&& info.name@ == api_name(a)
    &&& info.description@ == api_description(a)
    &&& crate::text::str_views(info.files@) == api_files(a)
}

fn info_of(a: GraphicsApi) -> (r: GraphicsApiInfo)
    ensures
        info_matches(r, a),
        r.name@ == api_name(a),
        r.description@ == api_description(a),
{
    let fs = a.files_to_install();
    let mut files: Vec<String> = Vec::new();
    let mut j: usize = 0;
    while j < fs.len()
        invariant
            j <= fs.len(),
            crate::text::str_views(files@) == strs_view(fs@).take(j as int),
        decreases fs.len() - j,
    {
        let f = crate::text::owned(fs[j]);
        proof {
            crate::text::lemma_str_views_push(files@, f);
        }
        files.push(f);
        assert(crate::text::str_views(files@) =~= strs_view(fs@).take(j + 1));
        j += 1;
    }
    assert(strs_view(fs@).take(fs.len() as int) =~= strs_view(fs@));
    GraphicsApiInfo {
        id: crate::text::owned(a.as_str()),
        name: crate::text::owned(a.display_name()),
        description: crate::text::owned(a.description()),
        files,
    }
}

/// Id, name, description and files of every API, in menu order.
pub fn list_graphics_apis() -> (r: Vec<GraphicsApiInfo>)
    ensures
        r@.len() == all_apis().len(),
        forall|i: int| 0 <= i < r@.len() ==> info_matches(#[trigger] r@[i], all_apis()[i]),
{
    let apis = GraphicsApi::all();
    let mut out: Vec<GraphicsApiInfo> = Vec::new();
    let mut i: usize = 0;
    while i < apis.len()
        invariant
            i <= apis.len(),
            apis@ == all_apis(),
            out@.len() == i,
            forall|k: int| 0 <= k < i ==> info_matches(#[trigger] out@[k], all_apis()[k]),
        decreases apis.len() - i,
    {
        out.push(info_of(apis[i]));
        i += 1;
    }
    out
}

} // verus!
