//! The administrative client's vocabulary: the API surface, its URL
//! construction, and the client-side configuration and error types.
use vstd::prelude::*;
use vstd::string::StringExecFns;

verus! {

/// The endpoints the administrative client talks to.
pub enum API {
    LoadMission,
    LoadMapping,
    LoadWatchList,
    LoadKPI,
    DeleteMission,
    APIMissionList,
    Login,
    CheckSession,
    UpdateCache,
    GetCacheStatus,
    SetMissionInvalid,
    GetMissionInvalid,
    GetAssignedKPI,
    SetAssignedKPI,
    DeleteAssignedKPI,
}

/// The path suffix of each endpoint.
pub open spec fn spec_api_suffix(api: API) -> Seq<char> {
    match api {
        API::LoadMission => "/mission/load_mission"@,
        API::LoadMapping => "/admin/load_mapping"@,
        API::LoadWatchList => "/admin/load_watchlist"@,
        API::LoadKPI => "/admin/load_kpi"@,
        API::DeleteMission => "/admin/delete_mission"@,
        API::APIMissionList => "/mission/api_mission_list"@,
        API::Login => "/login"@,
        API::CheckSession => "/check_session"@,
        API::UpdateCache => "/cache/update_cache"@,
        API::GetCacheStatus => "/cache/get_cache_status"@,
        API::SetMissionInvalid => "/admin/set_mission_invalid"@,
        API::GetMissionInvalid => "/admin/mission_invalid"@,
        API::GetAssignedKPI => "/kpi/assigned_kpi"@,
        API::SetAssignedKPI => "/kpi/set_assigned_kpi"@,
        API::DeleteAssignedKPI => "/kpi/delete_assigned_kpi"@,
    }
}

impl API {
    /// The full URL of the endpoint under the given API root.
    pub fn get_url(&self, api_endpoint: &str) -> (r: String)
        ensures
            r@ == api_endpoint@ + spec_api_suffix(*self),
    {
        let suffix: &str = match self {
            API::LoadMission => "/mission/load_mission",
            API::LoadMapping => "/admin/load_mapping",
            API::LoadWatchList => "/admin/load_watchlist",
            API::LoadKPI => "/admin/load_kpi",
            API::DeleteMission => "/admin/delete_mission",
            API::APIMissionList => "/mission/api_mission_list",
            API::Login => "/login",
            API::CheckSession => "/check_session",
            API::UpdateCache => "/cache/update_cache",
            API::GetCacheStatus => "/cache/get_cache_status",
            API::SetMissionInvalid => "/admin/set_mission_invalid",
            API::GetMissionInvalid => "/admin/mission_invalid",
            API::GetAssignedKPI => "/kpi/assigned_kpi",
            API::SetAssignedKPI => "/kpi/set_assigned_kpi",
            API::DeleteAssignedKPI => "/kpi/delete_assigned_kpi",
        };
        let mut url: String = api_endpoint.to_owned();
        url.append(suffix);
        url
    }
}

/// The client before a session is established.
pub struct NotAuthenticated;

/// The client once a session is established.
pub struct Authenticated;

/// The administrative client's configuration.
pub struct ClientConfig {
    pub access_token: Option<String>,
    pub endpoint_url: String,
    pub mapping_path: Option<String>,
    pub watchlist_path: Option<String>,
    pub kpi_config_path: Option<String>,
}

/// The cache kinds selectable from the command line.
#[derive(Clone, Copy, PartialEq, Eq, Structural, Debug)]
pub enum CliCacheType {
    MissionRaw,
    MissionKPIRaw,
    GlobalKPIState,
    All,
}

impl CliCacheType {
    /// The wire form of the selection.
    pub fn to_api(self) -> (r: crate::scheduler::APICacheType)
        ensures
            r == spec_cli_to_api(self),
    {
        match self {
            CliCacheType::MissionRaw => crate::scheduler::APICacheType::MissionRaw,
            CliCacheType::MissionKPIRaw => crate::scheduler::APICacheType::MissionKPIRaw,
            CliCacheType::GlobalKPIState => crate::scheduler::APICacheType::GlobalKPIState,
            CliCacheType::All => crate::scheduler::APICacheType::All,
        }
    }
}

pub open spec fn spec_cli_to_api(t: CliCacheType) -> crate::scheduler::APICacheType {
    match t {
        CliCacheType::MissionRaw => crate::scheduler::APICacheType::MissionRaw,
        CliCacheType::MissionKPIRaw => crate::scheduler::APICacheType::MissionKPIRaw,
        CliCacheType::GlobalKPIState => crate::scheduler::APICacheType::GlobalKPIState,
        CliCacheType::All => crate::scheduler::APICacheType::All,
    }
}

/// What can go wrong on the client side.
pub enum ClientError {
    InputError(String),
    ParseError(String),
    NetworkError(String),
    APIError(String),
}

impl ClientError {
    /// A short description, for display by the surrounding program.
    pub fn describe(&self) -> (r: String)
        ensures
            r@ == spec_client_error_text(*self),
    {
        match self {
            ClientError::InputError(msg) => {
                let mut s = "Input error: ".to_owned();
                s.append(msg.as_str());
                s
            },
            ClientError::ParseError(msg) => {
                let mut s = "Parse error: ".to_owned();
                s.append(msg.as_str());
                s
            },
            ClientError::NetworkError(msg) => {
                let mut s = "Network error: ".to_owned();
                s.append(msg.as_str());
                s
            },
            ClientError::APIError(msg) => {
                let mut s = "API error: ".to_owned();
                s.append(msg.as_str());
                s
            },
        }
    }
}

pub open spec fn spec_client_error_text(e: ClientError) -> Seq<char> {
    match e {
        ClientError::InputError(msg) => "Input error: "@ + msg@,
        ClientError::ParseError(msg) => "Parse error: "@ + msg@,
        ClientError::NetworkError(msg) => "Network error: "@ + msg@,
        ClientError::APIError(msg) => "API error: "@ + msg@,
    }
}

} // verus!
